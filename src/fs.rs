use vstd::prelude::*;
use vstd::slice::slice_to_vec;

use crate::indexing::{display_name, extract_numeric_file_id, numeric_id, polish_name};

verus! {

/// One entry of a directory as it was read from disk. A directory carries
/// what was read inside it; entries that are neither a directory nor a
/// regular file are `Other`. A path is kept as the bytes the platform gave.
#[derive(Debug)]
pub enum Entry {
    File { name: String, path: Vec<u8> },
    Dir { name: String, path: Vec<u8>, children: Vec<Entry> },
    Other { name: String },
}

/// A node of the browsable tree.
#[derive(Debug)]
pub enum FsNode {
    File { name: String, id: Option<String> },
    Dir { name: String, children: Vec<FsNode> },
}

/// A regular file found by a scan: its name and its path, as bytes.
#[derive(Debug)]
pub struct FileRef {
    pub name: String,
    pub path: Vec<u8>,
}

pub struct FileRefView {
    pub name: Seq<char>,
    pub path: Seq<u8>,
}

impl View for FileRef {
    type V = FileRefView;

    open spec fn view(&self) -> FileRefView {
        FileRefView { name: self.name@, path: self.path@ }
    }
}

impl FileRef {
    pub fn clone_ref(&self) -> (r: FileRef)
        ensures
            r@ == self@,
    {
        FileRef { name: self.name.clone(), path: slice_to_vec(self.path.as_slice()) }
    }
}

pub open spec fn views_of(files: Seq<FileRef>) -> Seq<FileRefView> {
    files.map_values(|f: FileRef| f@)
}

/// The regular files under one entry, depth first, in the order read.
pub open spec fn files_of_entry(e: Entry) -> Seq<FileRefView>
    decreases e, 0nat,
{
    match e {
        Entry::File { name, path } => seq![FileRefView { name: name@, path: path@ }],
        Entry::Dir { children, .. } => files_of_prefix(children@, children@.len()),
        Entry::Other { .. } => Seq::empty(),
    }
}

/// The regular files under the first `n` entries of `entries`.
pub open spec fn files_of_prefix(entries: Seq<Entry>, n: nat) -> Seq<FileRefView>
    decreases entries, n,
{
    if n == 0 || n > entries.len() {
        Seq::empty()
    } else {
        files_of_prefix(entries, (n - 1) as nat) + files_of_entry(entries[n - 1])
    }
}

/// The regular files under all of `entries`.
pub open spec fn files_of(entries: Seq<Entry>) -> Seq<FileRefView> {
    files_of_prefix(entries, entries.len())
}

/// `node` is the tree node that lists entry `e`.
pub open spec fn lists_entry(node: FsNode, e: Entry) -> bool
    decreases e, 0nat,
{
    match e {
        Entry::File { name, .. } => match node {
            FsNode::File { name: shown, id } => shown@ == display_name(name@) && match id {
                Some(i) => numeric_id(name@) == Some(i@),
                None => numeric_id(name@) is None,
            },
            FsNode::Dir { .. } => false,
        },
        Entry::Dir { name, children, .. } => match node {
            FsNode::Dir { name: shown, children: nodes } => shown@ == name@ && lists_prefix(
                nodes@,
                children@,
                children@.len(),
            ),
            FsNode::File { .. } => false,
        },
        Entry::Other { .. } => false,
    }
}

/// `nodes` lists the first `n` of `entries` in order, `Other` entries left out.
pub open spec fn lists_prefix(nodes: Seq<FsNode>, entries: Seq<Entry>, n: nat) -> bool
    decreases entries, n,
{
    if n > entries.len() {
        false
    } else if n == 0 {
        nodes.len() == 0
    } else {
        match entries[n - 1] {
            Entry::Other { .. } => lists_prefix(nodes, entries, (n - 1) as nat),
            _ => nodes.len() > 0 && lists_entry(nodes.last(), entries[n - 1]) && lists_prefix(
                nodes.drop_last(),
                entries,
                (n - 1) as nat,
            ),
        }
    }
}

/// `nodes` is the browsable tree of `entries`.
pub open spec fn lists(nodes: Seq<FsNode>, entries: Seq<Entry>) -> bool {
    lists_prefix(nodes, entries, entries.len())
}

/// Every entry that is not `Other` among the first `n` keeps a node of its
/// own in a listing of them.
proof fn lemma_prefix_lists_each_entry(nodes: Seq<FsNode>, entries: Seq<Entry>, n: nat, j: int)
    requires
        lists_prefix(nodes, entries, n),
        0 <= j < n,
        !(entries[j] is Other),
    ensures
        exists|m: int| 0 <= m < nodes.len() && lists_entry(#[trigger] nodes[m], entries[j]),
    decreases n,
{
    let last = (n - 1) as int;
    if entries[last] is Other {
        lemma_prefix_lists_each_entry(nodes, entries, (n - 1) as nat, j);
    } else if j == last {
        assert(lists_entry(nodes[nodes.len() - 1], entries[j]));
    } else {
        let rest = nodes.drop_last();
        lemma_prefix_lists_each_entry(rest, entries, (n - 1) as nat, j);
        let m = choose|m: int| 0 <= m < rest.len() && lists_entry(#[trigger] rest[m], entries[j]);
        assert(nodes[m] == rest[m]);
    }
}

/// A listing leaves out no file or directory: each entry that is a regular
/// file or a directory has a node of its own, so two files with one
/// identifier both stay visible, each with its name and identifier.
pub proof fn lemma_listing_keeps_every_entry(nodes: Seq<FsNode>, entries: Seq<Entry>, j: int)
    requires
        lists(nodes, entries),
        0 <= j < entries.len(),
        !(entries[j] is Other),
    ensures
        exists|m: int| 0 <= m < nodes.len() && lists_entry(#[trigger] nodes[m], entries[j]),
{
    lemma_prefix_lists_each_entry(nodes, entries, entries.len(), j);
}

/// The browsable tree of a scanned directory: each subdirectory becomes a
/// `Dir` node holding its own tree, each regular file a `File` node with its
/// display name and identifier, in the order read; other entries are skipped.
pub fn read_dir_recursive(entries: &Vec<Entry>) -> (nodes: Vec<FsNode>)
    ensures
        lists(nodes@, entries@),
    decreases entries@,
{
    let mut nodes: Vec<FsNode> = Vec::new();
    let mut i: usize = 0;
    while i < entries.len()
        invariant
            i <= entries@.len(),
            lists_prefix(nodes@, entries@, i as nat),
        decreases entries@.len() - i,
    {
        let ghost before = nodes@;
        match &entries[i] {
            Entry::Dir { name, children, .. } => {
                assert(decreases_to!(entries@ => entries@[i as int]));
                let sub = read_dir_recursive(children);
                nodes.push(FsNode::Dir { name: name.clone(), children: sub });
                assert(nodes@.drop_last() =~= before);
                assert(lists_entry(nodes@.last(), entries@[i as int]));
                assert(lists_prefix(nodes@, entries@, (i + 1) as nat));
            },
            Entry::File { name, .. } => {
                let id = extract_numeric_file_id(name.as_str());
                let shown = polish_name(name.as_str());
                nodes.push(FsNode::File { name: shown, id });
                assert(nodes@.drop_last() =~= before);
                assert(lists_entry(nodes@.last(), entries@[i as int]));
                assert(lists_prefix(nodes@, entries@, (i + 1) as nat));
            },
            Entry::Other { .. } => {
                assert(lists_prefix(nodes@, entries@, (i + 1) as nat));
            },
        }
        i = i + 1;
    }
    nodes
}

/// Every regular file under a scanned directory, depth first, in the order
/// read; directories are walked but not returned.
pub fn collect_files_recursive(entries: &Vec<Entry>) -> (files: Vec<FileRef>)
    ensures
        views_of(files@) == files_of(entries@),
    decreases entries@,
{
    let mut files: Vec<FileRef> = Vec::new();
    let mut i: usize = 0;
    while i < entries.len()
        invariant
            i <= entries@.len(),
            views_of(files@) == files_of_prefix(entries@, i as nat),
        decreases entries@.len() - i,
    {
        let ghost before = views_of(files@);
        match &entries[i] {
            Entry::Dir { children, .. } => {
                assert(decreases_to!(entries@ => entries@[i as int]));
                let mut sub = collect_files_recursive(children);
                let ghost added = views_of(sub@);
                files.append(&mut sub);
                assert(views_of(files@) =~= before + added);
                assert(added == files_of_entry(entries@[i as int]));
                assert(views_of(files@) == files_of_prefix(entries@, (i + 1) as nat));
            },
            Entry::File { name, path } => {
                files.push(FileRef { name: name.clone(), path: slice_to_vec(path.as_slice()) });
                assert(views_of(files@) =~= before + files_of_entry(entries@[i as int]));
            },
            Entry::Other { .. } => {
                assert(files_of_entry(entries@[i as int]) =~= Seq::empty());
                assert(views_of(files@) =~= before + files_of_entry(entries@[i as int]));
            },
        }
        i = i + 1;
    }
    files
}

} // verus!

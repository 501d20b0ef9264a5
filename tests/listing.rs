use doc_index::api::{
    get_file_by_vzis, list_dir, open_failure, STATUS_INTERNAL_ERROR, STATUS_NOT_FOUND, STATUS_OK,
};
use doc_index::fs::{collect_files_recursive, read_dir_recursive, Entry, FsNode};
use doc_index::indexing::index_documents;

fn file(name: &str, path: &str) -> Entry {
    Entry::File { name: name.to_string(), path: path.as_bytes().to_vec() }
}

fn dir(name: &str, path: &str, children: Vec<Entry>) -> Entry {
    Entry::Dir { name: name.to_string(), path: path.as_bytes().to_vec(), children }
}

fn assert_file(node: &FsNode, name: &str, id: Option<&str>) {
    match node {
        FsNode::File { name: n, id: i } => {
            assert_eq!(n, name);
            assert_eq!(i.as_deref(), id);
        }
        FsNode::Dir { .. } => panic!("expected a file node, found {:?}", node),
    }
}

#[test]
fn list_shows_identified_file() {
    let tree = read_dir_recursive(&vec![file(
        "ВЗИС.123.456_report.pdf",
        "/root/ВЗИС.123.456_report.pdf",
    )]);
    assert_eq!(tree.len(), 1);
    assert_file(&tree[0], "report.pdf", Some("123.456"));
}

#[test]
fn list_shows_plain_file_without_id() {
    let tree = read_dir_recursive(&vec![file("report.pdf", "/root/report.pdf")]);
    assert_eq!(tree.len(), 1);
    assert_file(&tree[0], "report.pdf", None);
}

#[test]
fn list_nests_directories() {
    let tree = read_dir_recursive(&vec![dir(
        "archive",
        "/root/archive",
        vec![file("ВЗИС.1.2-old.doc", "/root/archive/ВЗИС.1.2-old.doc")],
    )]);
    assert_eq!(tree.len(), 1);
    match &tree[0] {
        FsNode::Dir { name, children } => {
            assert_eq!(name, "archive");
            assert_eq!(children.len(), 1);
            assert_file(&children[0], "old.doc", Some("1.2"));
        }
        other => panic!("expected a directory node, found {:?}", other),
    }
}

#[test]
fn list_keeps_both_files_with_one_id() {
    let tree = read_dir_recursive(&vec![
        dir("a", "/root/a", vec![file("ВЗИС.5.5_first.pdf", "/root/a/ВЗИС.5.5_first.pdf")]),
        dir("b", "/root/b", vec![file("ВЗИС.5.5_second.pdf", "/root/b/ВЗИС.5.5_second.pdf")]),
    ]);
    assert_eq!(tree.len(), 2);
    for (node, shown) in tree.iter().zip(["first.pdf", "second.pdf"]) {
        match node {
            FsNode::Dir { children, .. } => {
                assert_eq!(children.len(), 1);
                assert_file(&children[0], shown, Some("5.5"));
            }
            other => panic!("expected a directory node, found {:?}", other),
        }
    }
}

#[test]
fn list_skips_other_entries_and_keeps_order() {
    let tree = read_dir_recursive(&vec![
        file("b.txt", "/r/b.txt"),
        Entry::Other { name: "sock".to_string() },
        dir("empty", "/r/empty", vec![]),
        file("ВЗИС.3_a.txt", "/r/ВЗИС.3_a.txt"),
    ]);
    assert_eq!(tree.len(), 3);
    assert_file(&tree[0], "b.txt", None);
    match &tree[1] {
        FsNode::Dir { name, children } => {
            assert_eq!(name, "empty");
            assert!(children.is_empty());
        }
        other => panic!("expected a directory node, found {:?}", other),
    }
    assert_file(&tree[2], "a.txt", Some("3"));
}

#[test]
fn collect_returns_files_depth_first() {
    let files = collect_files_recursive(&vec![
        file("1", "/r/1"),
        dir("d", "/r/d", vec![file("2", "/r/d/2"), dir("e", "/r/d/e", vec![file("3", "/r/d/e/3")])]),
        Entry::Other { name: "x".to_string() },
        file("4", "/r/4"),
    ]);
    let paths: Vec<&str> = files.iter().map(|f| std::str::from_utf8(&f.path).unwrap()).collect();
    assert_eq!(paths, vec!["/r/1", "/r/d/2", "/r/d/e/3", "/r/4"]);
    let names: Vec<&str> = files.iter().map(|f| f.name.as_str()).collect();
    assert_eq!(names, vec!["1", "2", "3", "4"]);
}

#[test]
fn collect_of_empty_directory_is_empty() {
    assert!(collect_files_recursive(&vec![]).is_empty());
    assert!(read_dir_recursive(&vec![]).is_empty());
}

#[test]
fn list_dir_reply_on_success() {
    let (status, body) = list_dir(Ok(vec![file("ВЗИС.7_x.pdf", "/r/ВЗИС.7_x.pdf")]));
    assert_eq!(status, STATUS_OK);
    assert_eq!(status, 200);
    assert!(body.error.is_none());
    let tree = body.data.unwrap();
    assert_eq!(tree.len(), 1);
    assert_file(&tree[0], "x.pdf", Some("7"));
}

#[test]
fn list_dir_reply_on_scan_failure() {
    let (status, body) = list_dir(Err("/r/locked: permission denied".to_string()));
    assert_eq!(status, STATUS_INTERNAL_ERROR);
    assert_eq!(status, 500);
    assert!(body.data.is_none());
    assert_eq!(body.error, Some("/r/locked: permission denied".to_string()));
}

#[test]
fn file_lookup_found_and_not_found() {
    let index = index_documents(&vec![file("ВЗИС.123.456_report.pdf", "/r/ВЗИС.123.456_report.pdf")]);
    assert_eq!(
        get_file_by_vzis(&index, "123.456").ok().map(|p| String::from_utf8(p).unwrap()),
        Some("/r/ВЗИС.123.456_report.pdf".to_string())
    );
    match get_file_by_vzis(&index, "999") {
        Ok(path) => panic!("unexpected file {:?}", path),
        Err((status, body)) => {
            assert_eq!(status, STATUS_NOT_FOUND);
            assert_eq!(status, 404);
            assert!(body.data.is_none());
            assert_eq!(body.error, Some("Document not found".to_string()));
        }
    }
}

#[test]
fn open_failure_reply() {
    let (status, body) = open_failure("No such file or directory".to_string());
    assert_eq!(status, 500);
    assert!(body.data.is_none());
    assert_eq!(body.error, Some("No such file or directory".to_string()));
}

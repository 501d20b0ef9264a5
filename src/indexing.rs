use vstd::prelude::*;
use vstd::string::StrSliceExecFns;
use vstd::string::StringExecFns;

use crate::fs::{collect_files_recursive, files_of, Entry, FileRef, FileRefView};

verus! {

/// Number of characters in the identifier prefix `ВЗИС.`.
pub const PREFIX_LEN: usize = 5;

/// The literal token that opens every identified filename: `ВЗИС.`.
pub open spec fn id_prefix() -> Seq<char> {
    seq!['\u{0412}', '\u{0417}', '\u{0418}', '\u{0421}', '.']
}

/// Whether `c` is a decimal digit of any script (Unicode general category
/// `Nd`, Unicode 16.0), as `\d` matches in a Unicode regular expression.
pub open spec fn is_digit(c: char) -> bool {
    ('\u{0030}' <= c && c <= '\u{0039}')
    || ('\u{0660}' <= c && c <= '\u{0669}')
    || ('\u{06f0}' <= c && c <= '\u{06f9}')
    || ('\u{07c0}' <= c && c <= '\u{07c9}')
    || ('\u{0966}' <= c && c <= '\u{096f}')
    || ('\u{09e6}' <= c && c <= '\u{09ef}')
    || ('\u{0a66}' <= c && c <= '\u{0a6f}')
    || ('\u{0ae6}' <= c && c <= '\u{0aef}')
    || ('\u{0b66}' <= c && c <= '\u{0b6f}')
    || ('\u{0be6}' <= c && c <= '\u{0bef}')
    || ('\u{0c66}' <= c && c <= '\u{0c6f}')
    || ('\u{0ce6}' <= c && c <= '\u{0cef}')
    || ('\u{0d66}' <= c && c <= '\u{0d6f}')
    || ('\u{0de6}' <= c && c <= '\u{0def}')
    || ('\u{0e50}' <= c && c <= '\u{0e59}')
    || ('\u{0ed0}' <= c && c <= '\u{0ed9}')
    || ('\u{0f20}' <= c && c <= '\u{0f29}')
    || ('\u{1040}' <= c && c <= '\u{1049}')
    || ('\u{1090}' <= c && c <= '\u{1099}')
    || ('\u{17e0}' <= c && c <= '\u{17e9}')
    || ('\u{1810}' <= c && c <= '\u{1819}')
    || ('\u{1946}' <= c && c <= '\u{194f}')
    || ('\u{19d0}' <= c && c <= '\u{19d9}')
    || ('\u{1a80}' <= c && c <= '\u{1a89}')
    || ('\u{1a90}' <= c && c <= '\u{1a99}')
    || ('\u{1b50}' <= c && c <= '\u{1b59}')
    || ('\u{1bb0}' <= c && c <= '\u{1bb9}')
    || ('\u{1c40}' <= c && c <= '\u{1c49}')
    || ('\u{1c50}' <= c && c <= '\u{1c59}')
    || ('\u{a620}' <= c && c <= '\u{a629}')
    || ('\u{a8d0}' <= c && c <= '\u{a8d9}')
    || ('\u{a900}' <= c && c <= '\u{a909}')
    || ('\u{a9d0}' <= c && c <= '\u{a9d9}')
    || ('\u{a9f0}' <= c && c <= '\u{a9f9}')
    || ('\u{aa50}' <= c && c <= '\u{aa59}')
    || ('\u{abf0}' <= c && c <= '\u{abf9}')
    || ('\u{ff10}' <= c && c <= '\u{ff19}')
    || ('\u{104a0}' <= c && c <= '\u{104a9}')
    || ('\u{10d30}' <= c && c <= '\u{10d39}')
    || ('\u{10d40}' <= c && c <= '\u{10d49}')
    || ('\u{11066}' <= c && c <= '\u{1106f}')
    || ('\u{110f0}' <= c && c <= '\u{110f9}')
    || ('\u{11136}' <= c && c <= '\u{1113f}')
    || ('\u{111d0}' <= c && c <= '\u{111d9}')
    || ('\u{112f0}' <= c && c <= '\u{112f9}')
    || ('\u{11450}' <= c && c <= '\u{11459}')
    || ('\u{114d0}' <= c && c <= '\u{114d9}')
    || ('\u{11650}' <= c && c <= '\u{11659}')
    || ('\u{116c0}' <= c && c <= '\u{116c9}')
    || ('\u{116d0}' <= c && c <= '\u{116e3}')
    || ('\u{11730}' <= c && c <= '\u{11739}')
    || ('\u{118e0}' <= c && c <= '\u{118e9}')
    || ('\u{11950}' <= c && c <= '\u{11959}')
    || ('\u{11bf0}' <= c && c <= '\u{11bf9}')
    || ('\u{11c50}' <= c && c <= '\u{11c59}')
    || ('\u{11d50}' <= c && c <= '\u{11d59}')
    || ('\u{11da0}' <= c && c <= '\u{11da9}')
    || ('\u{11f50}' <= c && c <= '\u{11f59}')
    || ('\u{16130}' <= c && c <= '\u{16139}')
    || ('\u{16a60}' <= c && c <= '\u{16a69}')
    || ('\u{16ac0}' <= c && c <= '\u{16ac9}')
    || ('\u{16b50}' <= c && c <= '\u{16b59}')
    || ('\u{16d70}' <= c && c <= '\u{16d79}')
    || ('\u{1ccf0}' <= c && c <= '\u{1ccf9}')
    || ('\u{1d7ce}' <= c && c <= '\u{1d7ff}')
    || ('\u{1e140}' <= c && c <= '\u{1e149}')
    || ('\u{1e2f0}' <= c && c <= '\u{1e2f9}')
    || ('\u{1e4f0}' <= c && c <= '\u{1e4f9}')
    || ('\u{1e5f1}' <= c && c <= '\u{1e5fa}')
    || ('\u{1e950}' <= c && c <= '\u{1e959}')
    || ('\u{1fbf0}' <= c && c <= '\u{1fbf9}')
}

/// Number of consecutive digits in `s` starting at position `i`.
pub open spec fn digit_run(s: Seq<char>, i: int) -> nat
    decreases s.len() - i,
{
    if 0 <= i < s.len() && is_digit(s[i]) {
        1 + digit_run(s, i + 1)
    } else {
        0
    }
}

pub open spec fn has_id_prefix(s: Seq<char>) -> bool {
    s.len() >= PREFIX_LEN && s.take(PREFIX_LEN as int) == id_prefix()
}

/// Length of the numeric identifier `major[.minor]` that follows the prefix
/// at the start of `s`; zero when `s` carries no identifier, which includes
/// a major part followed by a dot with no digit after it.
pub open spec fn id_len(s: Seq<char>) -> nat {
    if !has_id_prefix(s) {
        0
    } else {
        let p = PREFIX_LEN as int;
        let major = digit_run(s, p);
        if major == 0 {
            0
        } else if p + major < s.len() && s[p + major] == '.' {
            if digit_run(s, p + major + 1) > 0 {
                major + 1 + digit_run(s, p + major + 1)
            } else {
                0
            }
        } else {
            major
        }
    }
}

/// The canonical identifier of a filename: `major` or `major.minor`.
pub open spec fn numeric_id(s: Seq<char>) -> Option<Seq<char>> {
    if id_len(s) > 0 {
        Some(s.subrange(PREFIX_LEN as int, PREFIX_LEN + id_len(s)))
    } else {
        None
    }
}

/// The identifier together with its prefix, as it opens the filename.
pub open spec fn full_id(s: Seq<char>) -> Option<Seq<char>> {
    if id_len(s) > 0 {
        Some(s.take(PREFIX_LEN + id_len(s)))
    } else {
        None
    }
}

/// Whether `c` has the Unicode `White_Space` property, as `char::is_whitespace`
/// and `\s` in a Unicode regular expression decide it.
pub open spec fn white_space(c: char) -> bool {
    ('\u{0009}' <= c && c <= '\u{000d}') || c == '\u{0020}' || c == '\u{0085}' || c == '\u{00a0}'
        || c == '\u{1680}' || ('\u{2000}' <= c && c <= '\u{200a}') || c == '\u{2028}'
        || c == '\u{2029}' || c == '\u{202f}' || c == '\u{205f}' || c == '\u{3000}'
}

pub open spec fn is_separator(c: char) -> bool {
    c == '_' || c == '-' || white_space(c)
}

/// Number of consecutive separator characters in `s` starting at `i`.
pub open spec fn separator_run(s: Seq<char>, i: int) -> nat
    decreases s.len() - i,
{
    if 0 <= i < s.len() && is_separator(s[i]) {
        1 + separator_run(s, i + 1)
    } else {
        0
    }
}

/// The name shown for a file: the filename without its leading identifier
/// and the separators that follow it.
pub open spec fn display_name(s: Seq<char>) -> Seq<char> {
    if id_len(s) > 0 {
        let k = PREFIX_LEN + id_len(s);
        s.subrange(k + separator_run(s, k), s.len() as int)
    } else {
        s
    }
}

fn is_white_space(c: char) -> (r: bool)
    ensures
        r == white_space(c),
{
    ('\u{0009}' <= c && c <= '\u{000d}') || c == '\u{0020}' || c == '\u{0085}' || c == '\u{00a0}'
        || c == '\u{1680}' || ('\u{2000}' <= c && c <= '\u{200a}') || c == '\u{2028}'
        || c == '\u{2029}' || c == '\u{202f}' || c == '\u{205f}' || c == '\u{3000}'
}

/// Counts the digits of `s` from position `start` on.
fn count_digits(s: &str, len: usize, start: usize) -> (n: usize)
    requires
        len == s@.len(),
        start <= len,
    ensures
        n == digit_run(s@, start as int),
        start + n <= len,
{
    let mut j: usize = start;
    while j < len && is_decimal_digit(s.get_char(j))
        invariant
            start <= j <= len,
            len == s@.len(),
            digit_run(s@, start as int) == (j - start) + digit_run(s@, j as int),
        decreases len - j,
    {
        j = j + 1;
    }
    j - start
}

fn is_decimal_digit(c: char) -> (r: bool)
    ensures
        r == is_digit(c),
{
    ('\u{0030}' <= c && c <= '\u{0039}')
    || ('\u{0660}' <= c && c <= '\u{0669}')
    || ('\u{06f0}' <= c && c <= '\u{06f9}')
    || ('\u{07c0}' <= c && c <= '\u{07c9}')
    || ('\u{0966}' <= c && c <= '\u{096f}')
    || ('\u{09e6}' <= c && c <= '\u{09ef}')
    || ('\u{0a66}' <= c && c <= '\u{0a6f}')
    || ('\u{0ae6}' <= c && c <= '\u{0aef}')
    || ('\u{0b66}' <= c && c <= '\u{0b6f}')
    || ('\u{0be6}' <= c && c <= '\u{0bef}')
    || ('\u{0c66}' <= c && c <= '\u{0c6f}')
    || ('\u{0ce6}' <= c && c <= '\u{0cef}')
    || ('\u{0d66}' <= c && c <= '\u{0d6f}')
    || ('\u{0de6}' <= c && c <= '\u{0def}')
    || ('\u{0e50}' <= c && c <= '\u{0e59}')
    || ('\u{0ed0}' <= c && c <= '\u{0ed9}')
    || ('\u{0f20}' <= c && c <= '\u{0f29}')
    || ('\u{1040}' <= c && c <= '\u{1049}')
    || ('\u{1090}' <= c && c <= '\u{1099}')
    || ('\u{17e0}' <= c && c <= '\u{17e9}')
    || ('\u{1810}' <= c && c <= '\u{1819}')
    || ('\u{1946}' <= c && c <= '\u{194f}')
    || ('\u{19d0}' <= c && c <= '\u{19d9}')
    || ('\u{1a80}' <= c && c <= '\u{1a89}')
    || ('\u{1a90}' <= c && c <= '\u{1a99}')
    || ('\u{1b50}' <= c && c <= '\u{1b59}')
    || ('\u{1bb0}' <= c && c <= '\u{1bb9}')
    || ('\u{1c40}' <= c && c <= '\u{1c49}')
    || ('\u{1c50}' <= c && c <= '\u{1c59}')
    || ('\u{a620}' <= c && c <= '\u{a629}')
    || ('\u{a8d0}' <= c && c <= '\u{a8d9}')
    || ('\u{a900}' <= c && c <= '\u{a909}')
    || ('\u{a9d0}' <= c && c <= '\u{a9d9}')
    || ('\u{a9f0}' <= c && c <= '\u{a9f9}')
    || ('\u{aa50}' <= c && c <= '\u{aa59}')
    || ('\u{abf0}' <= c && c <= '\u{abf9}')
    || ('\u{ff10}' <= c && c <= '\u{ff19}')
    || ('\u{104a0}' <= c && c <= '\u{104a9}')
    || ('\u{10d30}' <= c && c <= '\u{10d39}')
    || ('\u{10d40}' <= c && c <= '\u{10d49}')
    || ('\u{11066}' <= c && c <= '\u{1106f}')
    || ('\u{110f0}' <= c && c <= '\u{110f9}')
    || ('\u{11136}' <= c && c <= '\u{1113f}')
    || ('\u{111d0}' <= c && c <= '\u{111d9}')
    || ('\u{112f0}' <= c && c <= '\u{112f9}')
    || ('\u{11450}' <= c && c <= '\u{11459}')
    || ('\u{114d0}' <= c && c <= '\u{114d9}')
    || ('\u{11650}' <= c && c <= '\u{11659}')
    || ('\u{116c0}' <= c && c <= '\u{116c9}')
    || ('\u{116d0}' <= c && c <= '\u{116e3}')
    || ('\u{11730}' <= c && c <= '\u{11739}')
    || ('\u{118e0}' <= c && c <= '\u{118e9}')
    || ('\u{11950}' <= c && c <= '\u{11959}')
    || ('\u{11bf0}' <= c && c <= '\u{11bf9}')
    || ('\u{11c50}' <= c && c <= '\u{11c59}')
    || ('\u{11d50}' <= c && c <= '\u{11d59}')
    || ('\u{11da0}' <= c && c <= '\u{11da9}')
    || ('\u{11f50}' <= c && c <= '\u{11f59}')
    || ('\u{16130}' <= c && c <= '\u{16139}')
    || ('\u{16a60}' <= c && c <= '\u{16a69}')
    || ('\u{16ac0}' <= c && c <= '\u{16ac9}')
    || ('\u{16b50}' <= c && c <= '\u{16b59}')
    || ('\u{16d70}' <= c && c <= '\u{16d79}')
    || ('\u{1ccf0}' <= c && c <= '\u{1ccf9}')
    || ('\u{1d7ce}' <= c && c <= '\u{1d7ff}')
    || ('\u{1e140}' <= c && c <= '\u{1e149}')
    || ('\u{1e2f0}' <= c && c <= '\u{1e2f9}')
    || ('\u{1e4f0}' <= c && c <= '\u{1e4f9}')
    || ('\u{1e5f1}' <= c && c <= '\u{1e5fa}')
    || ('\u{1e950}' <= c && c <= '\u{1e959}')
    || ('\u{1fbf0}' <= c && c <= '\u{1fbf9}')
}

/// Counts the separator characters of `s` from position `start` on.
fn count_separators(s: &str, len: usize, start: usize) -> (n: usize)
    requires
        len == s@.len(),
        start <= len,
    ensures
        n == separator_run(s@, start as int),
        start + n <= len,
{
    let mut j: usize = start;
    while j < len && is_separator_char(s.get_char(j))
        invariant
            start <= j <= len,
            len == s@.len(),
            separator_run(s@, start as int) == (j - start) + separator_run(s@, j as int),
        decreases len - j,
    {
        j = j + 1;
    }
    j - start
}

fn is_separator_char(c: char) -> (r: bool)
    ensures
        r == is_separator(c),
{
    c == '_' || c == '-' || is_white_space(c)
}

fn starts_with_prefix(s: &str, len: usize) -> (r: bool)
    requires
        len == s@.len(),
    ensures
        r == has_id_prefix(s@),
{
    if len < PREFIX_LEN {
        return false;
    }
    let r = s.get_char(0) == '\u{0412}' && s.get_char(1) == '\u{0417}' && s.get_char(2)
        == '\u{0418}' && s.get_char(3) == '\u{0421}' && s.get_char(4) == '.';
    assert(r == (s@.take(PREFIX_LEN as int) =~= id_prefix()));
    r
}

/// Length of the numeric identifier at the start of `s`, zero if none.
fn identifier_length(s: &str, len: usize) -> (n: usize)
    requires
        len == s@.len(),
    ensures
        n == id_len(s@),
        n > 0 ==> PREFIX_LEN + n <= len,
{
    if !starts_with_prefix(s, len) {
        return 0;
    }
    let major = count_digits(s, len, PREFIX_LEN);
    if major == 0 {
        return 0;
    }
    let dot = PREFIX_LEN + major;
    if dot < len && s.get_char(dot) == '.' {
        let minor = count_digits(s, len, dot + 1);
        if minor > 0 {
            return major + 1 + minor;
        }
        return 0;
    }
    major
}

/// The numeric part `major` or `major.minor` of the identifier that opens
/// `file_name`, e.g. `123.456` of `ВЗИС.123.456_report.pdf`.
pub fn extract_numeric_file_id(file_name: &str) -> (r: Option<String>)
    ensures
        r matches Some(id) ==> numeric_id(file_name@) == Some(id@),
        r is None ==> numeric_id(file_name@) is None,
{
    let len = file_name.unicode_len();
    let n = identifier_length(file_name, len);
    if n == 0 {
        None
    } else {
        Some(String::from_str(file_name.substring_char(PREFIX_LEN, PREFIX_LEN + n)))
    }
}

/// The whole identifier, prefix included, that opens `file_name`, e.g.
/// `ВЗИС.123.456` of `ВЗИС.123.456_report.pdf`.
pub fn extract_full_file_id(file_name: &str) -> (r: Option<String>)
    ensures
        r matches Some(id) ==> full_id(file_name@) == Some(id@),
        r is None ==> full_id(file_name@) is None,
{
    let len = file_name.unicode_len();
    let n = identifier_length(file_name, len);
    if n == 0 {
        None
    } else {
        Some(String::from_str(file_name.substring_char(0, PREFIX_LEN + n)))
    }
}

/// The name under which a file is listed: `report.pdf` for
/// `ВЗИС.123.456_report.pdf`, the name itself when it has no identifier.
pub fn polish_name(file_name: &str) -> (r: String)
    ensures
        r@ == display_name(file_name@),
{
    let len = file_name.unicode_len();
    let n = identifier_length(file_name, len);
    if n == 0 {
        String::from_str(file_name)
    } else {
        let k = PREFIX_LEN + n;
        let skip = count_separators(file_name, len, k);
        String::from_str(file_name.substring_char(k + skip, len))
    }
}

/// What an index holds: each identifier with the file that carries it.
pub type IndexView = Map<Seq<char>, FileRefView>;

/// The index of a sequence of files, inserted in order: a file whose name
/// has no identifier is left out, and of two files with one identifier the
/// later one stays.
pub open spec fn index_of(files: Seq<FileRefView>) -> IndexView
    decreases files.len(),
{
    if files.len() == 0 {
        Map::empty()
    } else {
        let earlier = index_of(files.drop_last());
        let f = files.last();
        match numeric_id(f.name) {
            Some(id) => earlier.insert(id, f),
            None => earlier,
        }
    }
}

/// A mapping from identifier to file, built from one scan.
pub struct Index {
    ids: Vec<String>,
    files: Vec<FileRef>,
    model: Ghost<IndexView>,
}

impl View for Index {
    type V = IndexView;

    closed spec fn view(&self) -> IndexView {
        self.model@
    }
}

impl Index {
    /// The identifiers are distinct, and each is stored with its file.
    pub closed spec fn wf(&self) -> bool {
        &&& self.ids@.len() == self.files@.len()
        &&& forall|i: int, j: int|
            0 <= i < j < self.ids@.len() ==> #[trigger] self.ids@[i]@ != #[trigger] self.ids@[j]@
        &&& forall|i: int|
            0 <= i < self.ids@.len() ==> self.model@.contains_key(#[trigger] self.ids@[i]@)
                && self.model@[self.ids@[i]@] == self.files@[i]@
        &&& forall|k: Seq<char>|
            #[trigger] self.model@.contains_key(k) ==> exists|i: int|
                0 <= i < self.ids@.len() && #[trigger] self.ids@[i]@ == k
    }

    pub fn new() -> (r: Index)
        ensures
            r.wf(),
            r@ == IndexView::empty(),
    {
        Index { ids: Vec::new(), files: Vec::new(), model: Ghost(Map::empty()) }
    }

    /// Position of `id` among the stored identifiers.
    fn position(&self, id: &String) -> (r: Option<usize>)
        requires
            self.wf(),
        ensures
            match r {
                Some(i) => i < self.ids@.len() && self.ids@[i as int]@ == id@,
                None => !self@.contains_key(id@),
            },
    {
        let mut i: usize = 0;
        while i < self.ids.len()
            invariant
                self.wf(),
                i <= self.ids@.len(),
                forall|j: int| 0 <= j < i ==> #[trigger] self.ids@[j]@ != id@,
            decreases self.ids@.len() - i,
        {
            if self.ids[i] == *id {
                return Some(i);
            }
            i = i + 1;
        }
        None
    }

    /// Stores `file` under `id`, replacing the file stored there before.
    pub fn insert(&mut self, id: String, file: FileRef)
        requires
            old(self).wf(),
        ensures
            final(self).wf(),
            final(self)@ == old(self)@.insert(id@, file@),
    {
        let ghost key = id@;
        let ghost value = file@;
        let ghost updated = self.model@.insert(key, value);
        match self.position(&id) {
            Some(i) => {
                self.files.set(i, file);
                self.model = Ghost(updated);
                assert forall|k: Seq<char>| #[trigger] self.model@.contains_key(k) implies exists|
                    j: int,
                | 0 <= j < self.ids@.len() && #[trigger] self.ids@[j]@ == k by {
                    if k == key {
                        assert(self.ids@[i as int]@ == k);
                    }
                }
            },
            None => {
                let ghost n = self.ids@.len();
                self.ids.push(id);
                self.files.push(file);
                self.model = Ghost(updated);
                assert(self.ids@[n as int]@ == key);
                assert forall|k: Seq<char>| #[trigger] self.model@.contains_key(k) implies exists|
                    j: int,
                | 0 <= j < self.ids@.len() && #[trigger] self.ids@[j]@ == k by {
                    if k == key {
                        assert(self.ids@[n as int]@ == k);
                    } else {
                        assert(old(self).model@.contains_key(k));
                        let j = choose|j: int| 0 <= j < old(self).ids@.len() && #[trigger] old(self).ids@[j]@ == k;
                        assert(self.ids@[j]@ == k);
                    }
                }
            },
        }
    }

    /// The file stored under `id`, if any.
    pub fn get(&self, id: &str) -> (r: Option<&FileRef>)
        requires
            self.wf(),
        ensures
            match r {
                Some(f) => self@.contains_key(id@) && self@[id@] == f@,
                None => !self@.contains_key(id@),
            },
    {
        let key = String::from_str(id);
        match self.position(&key) {
            Some(i) => Some(&self.files[i]),
            None => None,
        }
    }

    /// Number of identifiers stored.
    pub fn len(&self) -> (n: usize)
        requires
            self.wf(),
        ensures
            n == self@.len(),
    {
        proof {
            let ids = self.ids@.map_values(|s: String| s@);
            assert forall|i: int, j: int| 0 <= i < j < ids.len() implies ids[i] != ids[j] by {
                assert(self.ids@[i]@ != self.ids@[j]@);
            }
            ids.unique_seq_to_set();
            assert(ids.to_set() =~= self@.dom()) by {
                assert forall|k: Seq<char>| self@.dom().contains(k) implies ids.to_set().contains(k) by {
                    let j = choose|j: int| 0 <= j < self.ids@.len() && #[trigger] self.ids@[j]@ == k;
                    assert(ids[j] == k);
                }
                assert forall|k: Seq<char>| ids.to_set().contains(k) implies self@.dom().contains(k) by {
                    let j = choose|j: int| 0 <= j < ids.len() && ids[j] == k;
                    assert(self.model@.contains_key(self.ids@[j]@));
                }
            }
        }
        self.ids.len()
    }
}

/// The index of a scanned directory: every regular file under it whose name
/// carries an identifier, keyed by that identifier; of two files with one
/// identifier, the one scanned later stays.
pub fn index_documents(entries: &Vec<Entry>) -> (index: Index)
    ensures
        index.wf(),
        index@ == index_of(files_of(entries@)),
{
    let files = collect_files_recursive(entries);
    let ghost scanned = files_of(entries@);
    let mut index = Index::new();
    let mut i: usize = 0;
    while i < files.len()
        invariant
            i <= files@.len(),
            scanned.len() == files@.len(),
            forall|j: int| 0 <= j < files@.len() ==> #[trigger] scanned[j] == files@[j]@,
            index.wf(),
            index@ == index_of(scanned.take(i as int)),
        decreases files@.len() - i,
    {
        let each = &files[i];
        assert(scanned.take(i + 1).drop_last() =~= scanned.take(i as int));
        assert(scanned.take(i + 1).last() == each@);
        match extract_numeric_file_id(each.name.as_str()) {
            Some(id) => {
                index.insert(id, each.clone_ref());
            },
            None => {},
        }
        i = i + 1;
    }
    assert(scanned.take(files@.len() as int) =~= scanned);
    index
}

/// The index that is current after a rebuild: the rebuilt one when the scan
/// succeeded, the one before it when the scan failed.
pub open spec fn index_after_rebuild(current: IndexView, rebuilt: Result<Index, String>) -> IndexView {
    match rebuilt {
        Ok(fresh) => fresh@,
        Err(_) => current,
    }
}

/// Publishes the outcome of a rebuild: a fresh index replaces `current`
/// whole; a failed scan leaves `current` as it was. Returns whether
/// `current` was replaced.
pub fn apply_rebuild(current: &mut Index, rebuilt: Result<Index, String>) -> (replaced: bool)
    ensures
        final(current)@ == index_after_rebuild(old(current)@, rebuilt),
        replaced == rebuilt is Ok,
        rebuilt matches Ok(fresh) ==> *final(current) == fresh,
        rebuilt is Err ==> *final(current) == *old(current),
{
    match rebuilt {
        Ok(fresh) => {
            *current = fresh;
            true
        },
        Err(_) => false,
    }
}

pub open spec fn all_digits(t: Seq<char>) -> bool {
    forall|i: int| 0 <= i < t.len() ==> is_digit(#[trigger] t[i])
}

/// The identifier text `major` or `major.minor`.
pub open spec fn id_text(major: Seq<char>, minor: Option<Seq<char>>) -> Seq<char> {
    match minor {
        Some(m) => major + seq!['.'] + m,
        None => major,
    }
}

/// A run of `k` digits at `i`, followed by a non-digit or the end, has
/// length `k`.
proof fn lemma_digit_run_len(s: Seq<char>, i: int, k: nat)
    requires
        0 <= i,
        i + k <= s.len(),
        forall|j: int| i <= j < i + k ==> is_digit(#[trigger] s[j]),
        i + k == s.len() || !is_digit(s[i + k]),
    ensures
        digit_run(s, i) == k,
    decreases k,
{
    if k > 0 {
        lemma_digit_run_len(s, i + 1, (k - 1) as nat);
    }
}

/// A filename that opens with the prefix, a run of digits, optionally a dot
/// and a second run of digits, and then a character that continues neither
/// run, has exactly `major` or `major.minor` as its identifier, whatever
/// follows.
pub proof fn lemma_identifier_of_well_formed_name(
    major: Seq<char>,
    minor: Option<Seq<char>>,
    sep: char,
    rest: Seq<char>,
)
    requires
        major.len() > 0,
        all_digits(major),
        minor matches Some(m) ==> m.len() > 0 && all_digits(m),
        !is_digit(sep),
        minor is None ==> sep != '.',
    ensures
        numeric_id(id_prefix() + id_text(major, minor) + seq![sep] + rest) == Some(
            id_text(major, minor),
        ),
{
    let t = id_text(major, minor);
    let s = id_prefix() + t + seq![sep] + rest;
    let p = PREFIX_LEN as int;
    let a = major.len();
    assert(s.take(p) =~= id_prefix());
    assert forall|j: int| p <= j < p + a implies is_digit(#[trigger] s[j]) by {
        assert(s[j] == major[j - p]);
    }
    match minor {
        Some(m) => {
            assert(s[p + a] == '.');
            lemma_digit_run_len(s, p, a);
            assert forall|j: int| p + a + 1 <= j < p + a + 1 + m.len() implies is_digit(
                #[trigger] s[j],
            ) by {
                assert(s[j] == m[j - p - a - 1]);
            }
            assert(s[p + a + 1 + m.len()] == sep);
            lemma_digit_run_len(s, p + a + 1, m.len());
            assert(id_len(s) == t.len());
        },
        None => {
            assert(s[p + a] == sep);
            lemma_digit_run_len(s, p, a);
            assert(id_len(s) == t.len());
        },
    }
    assert(s.subrange(p, p + t.len()) =~= t);
}

/// A filename has an identifier only when it opens with the prefix followed
/// by a digit: the empty name has none, nor has a name that holds the prefix
/// anywhere but at its start.
pub proof fn lemma_identifier_presence(s: Seq<char>)
    ensures
        numeric_id(s) is Some ==> has_id_prefix(s) && s.len() > PREFIX_LEN && is_digit(
            s[PREFIX_LEN as int],
        ),
{
    reveal_with_fuel(digit_run, 2);
}

/// A major part followed by a dot with no digit after it is malformed: such
/// a filename has no identifier, whatever follows the dot.
pub proof fn lemma_trailing_dot_has_no_identifier(major: Seq<char>, rest: Seq<char>)
    requires
        major.len() > 0,
        all_digits(major),
        rest.len() == 0 || !is_digit(rest[0]),
    ensures
        numeric_id(id_prefix() + major + seq!['.'] + rest) is None,
{
    let s = id_prefix() + major + seq!['.'] + rest;
    let p = PREFIX_LEN as int;
    let a = major.len();
    assert(s.take(p) =~= id_prefix());
    assert forall|j: int| p <= j < p + a implies is_digit(#[trigger] s[j]) by {
        assert(s[j] == major[j - p]);
    }
    assert(s[p + a] == '.');
    lemma_digit_run_len(s, p, a);
    if rest.len() > 0 {
        assert(s[p + a + 1] == rest[0]);
    }
    assert(digit_run(s, p + a + 1) == 0);
}

/// The index holds an identifier exactly when some scanned file carries it,
/// and then holds the last scanned file that carries it: one file per
/// identifier, and of two files with one identifier the later one wins.
pub proof fn lemma_index_last_write_wins(files: Seq<FileRefView>, id: Seq<char>)
    ensures
        index_of(files).contains_key(id) <==> exists|i: int|
            0 <= i < files.len() && numeric_id(#[trigger] files[i].name) == Some(id),
        index_of(files).contains_key(id) ==> exists|i: int|
            0 <= i < files.len() && #[trigger] files[i] == index_of(files)[id] && numeric_id(
                files[i].name,
            ) == Some(id) && forall|j: int|
                i < j < files.len() ==> numeric_id(#[trigger] files[j].name) != Some(id),
    decreases files.len(),
{
    if files.len() > 0 {
        let earlier = files.drop_last();
        let n = files.len() - 1;
        lemma_index_last_write_wins(earlier, id);
        assert forall|i: int| 0 <= i < n implies #[trigger] files[i] == earlier[i] by {}
        if numeric_id(files[n].name) == Some(id) {
            assert(files[n] == index_of(files)[id]);
        } else if index_of(files).contains_key(id) {
            let i = choose|i: int|
                0 <= i < earlier.len() && #[trigger] earlier[i] == index_of(earlier)[id]
                    && numeric_id(earlier[i].name) == Some(id) && forall|j: int|
                    i < j < earlier.len() ==> numeric_id(#[trigger] earlier[j].name) != Some(id);
            assert(files[i] == earlier[i]);
            assert forall|j: int| i < j < files.len() implies numeric_id(
                #[trigger] files[j].name,
            ) != Some(id) by {
                if j < n {
                    assert(files[j] == earlier[j]);
                }
            }
        } else {
            assert forall|i: int| 0 <= i < files.len() implies numeric_id(
                #[trigger] files[i].name,
            ) != Some(id) by {
                if i < n {
                    assert(files[i] == earlier[i]);
                }
            }
        }
    }
}

/// No two scanned files share a path, as holds of one read of a directory
/// tree.
pub open spec fn paths_distinct(files: Seq<FileRefView>) -> bool {
    forall|i: int, j: int|
        0 <= i < j < files.len() ==> #[trigger] files[i].path != #[trigger] files[j].path
}

/// When scanned paths are distinct, an index entry with the path of the
/// `j`-th scanned file is that file, under its own identifier, and no later
/// file carries that identifier.
proof fn lemma_index_value_of_path(files: Seq<FileRefView>, j: int, k: Seq<char>)
    requires
        paths_distinct(files),
        0 <= j < files.len(),
        index_of(files).contains_key(k),
        index_of(files)[k].path == files[j].path,
    ensures
        index_of(files)[k] == files[j],
        numeric_id(files[j].name) == Some(k),
        forall|l: int| j < l < files.len() ==> numeric_id(#[trigger] files[l].name) != Some(k),
{
    lemma_index_last_write_wins(files, k);
    let i = choose|i: int|
        0 <= i < files.len() && #[trigger] files[i] == index_of(files)[k] && numeric_id(
            files[i].name,
        ) == Some(k) && forall|l: int|
            i < l < files.len() ==> numeric_id(#[trigger] files[l].name) != Some(k);
    if i < j {
        assert(files[i].path != files[j].path);
    } else if j < i {
        assert(files[j].path != files[i].path);
    }
}

/// Over a scan with distinct paths, two identifiers of the index never lead
/// to the same path: each indexed file stands under one identifier only.
pub proof fn lemma_index_paths_unique(entries: Seq<Entry>, k1: Seq<char>, k2: Seq<char>)
    requires
        paths_distinct(files_of(entries)),
        index_of(files_of(entries)).contains_key(k1),
        index_of(files_of(entries)).contains_key(k2),
        k1 != k2,
    ensures
        index_of(files_of(entries))[k1].path != index_of(files_of(entries))[k2].path,
{
    let files = files_of(entries);
    lemma_index_last_write_wins(files, k1);
    let i = choose|i: int|
        0 <= i < files.len() && #[trigger] files[i] == index_of(files)[k1] && numeric_id(
            files[i].name,
        ) == Some(k1) && forall|l: int|
            i < l < files.len() ==> numeric_id(#[trigger] files[l].name) != Some(k1);
    if index_of(files)[k2].path == files[i].path {
        lemma_index_value_of_path(files, i, k2);
    }
}

/// Over a scan with distinct paths, a file whose name carries no identifier
/// is returned by no lookup.
pub proof fn lemma_unidentified_file_never_indexed(entries: Seq<Entry>, j: int, k: Seq<char>)
    requires
        paths_distinct(files_of(entries)),
        0 <= j < files_of(entries).len(),
        numeric_id(files_of(entries)[j].name) is None,
        index_of(files_of(entries)).contains_key(k),
    ensures
        index_of(files_of(entries))[k].path != files_of(entries)[j].path,
{
    let files = files_of(entries);
    if index_of(files)[k].path == files[j].path {
        lemma_index_value_of_path(files, j, k);
    }
}

/// Over a scan with distinct paths, of two files with one identifier the
/// one scanned earlier is returned by no lookup.
pub proof fn lemma_earlier_duplicate_never_indexed(
    entries: Seq<Entry>,
    j: int,
    l: int,
    k: Seq<char>,
)
    requires
        paths_distinct(files_of(entries)),
        0 <= j < l < files_of(entries).len(),
        numeric_id(files_of(entries)[j].name) is Some,
        numeric_id(files_of(entries)[j].name) == numeric_id(files_of(entries)[l].name),
        index_of(files_of(entries)).contains_key(k),
    ensures
        index_of(files_of(entries))[k].path != files_of(entries)[j].path,
{
    let files = files_of(entries);
    if index_of(files)[k].path == files[j].path {
        lemma_index_value_of_path(files, j, k);
        assert(numeric_id(files[l].name) != Some(k));
    }
}

/// Scanning an unchanged directory twice builds the same index: the index
/// depends on what the scan read and on nothing else.
pub proof fn lemma_index_repeatable(first: Seq<Entry>, second: Seq<Entry>)
    requires
        first == second,
    ensures
        index_of(files_of(first)) == index_of(files_of(second)),
{
}

/// A rebuild whose scan failed leaves every identifier that was indexed
/// resolving to the same file as before.
pub proof fn lemma_failed_rebuild_keeps_lookups(current: Index, message: String, id: Seq<char>)
    requires
        current@.contains_key(id),
    ensures
        index_after_rebuild(current@, Err(message)).contains_key(id),
        index_after_rebuild(current@, Err(message))[id] == current@[id],
{
}

} // verus!

use doc_index::fs::{Entry, FileRef};
use doc_index::indexing::{
    apply_rebuild, extract_full_file_id, extract_numeric_file_id, index_documents, polish_name,
    Index,
};

fn file(name: &str, path: &str) -> Entry {
    Entry::File { name: name.to_string(), path: path.as_bytes().to_vec() }
}

fn dir(name: &str, path: &str, children: Vec<Entry>) -> Entry {
    Entry::Dir { name: name.to_string(), path: path.as_bytes().to_vec(), children }
}

fn path_of(index: &Index, id: &str) -> Option<String> {
    index.get(id).map(|f| String::from_utf8(f.path.clone()).unwrap())
}

#[test]
fn test_extract_file_id() {
    assert_eq!(
        extract_numeric_file_id("ВЗИС.123.456_report.pdf"),
        Some("123.456".to_string())
    );
    assert_eq!(
        extract_numeric_file_id("ВЗИС.123_report.pdf"),
        Some("123".to_string())
    );
    assert_eq!(
        extract_numeric_file_id("ВЗИС.123.456 report.pdf"),
        Some("123.456".to_string())
    );
    assert_eq!(
        extract_numeric_file_id("ВЗИС.987.654_some_file.txt"),
        Some("987.654".to_string())
    );
    assert_eq!(
        extract_numeric_file_id("ВЗИС.1.2-another_file.doc"),
        Some("1.2".to_string())
    );
    assert_eq!(extract_numeric_file_id("report.pdf"), None);
    assert_eq!(extract_numeric_file_id("file_ВЗИС.12.34.pdf"), None);
    assert_eq!(extract_numeric_file_id(""), None);
}

#[test]
fn extract_rejects_malformed_numbers() {
    assert_eq!(extract_numeric_file_id("ВЗИС."), None);
    assert_eq!(extract_numeric_file_id("ВЗИС.x12.pdf"), None);
    assert_eq!(extract_numeric_file_id("ВЗИС"), None);
    assert_eq!(extract_numeric_file_id("ВЗИС_12.pdf"), None);
    // a dot with no digits after it makes the number malformed
    assert_eq!(extract_numeric_file_id("ВЗИС.12.pdf"), None);
    assert_eq!(extract_numeric_file_id("ВЗИС.12."), None);
    assert_eq!(extract_full_file_id("ВЗИС.12."), None);
    // at most one minor part
    assert_eq!(extract_numeric_file_id("ВЗИС.1.2.3.pdf"), Some("1.2".to_string()));
    assert_eq!(extract_numeric_file_id("ВЗИС.007"), Some("007".to_string()));
}

#[test]
fn extract_accepts_decimal_digits_of_any_script() {
    assert_eq!(
        extract_numeric_file_id("ВЗИС.１２_x.pdf"),
        Some("１２".to_string())
    );
    assert_eq!(
        extract_numeric_file_id("ВЗИС.٣.٤ x.pdf"),
        Some("٣.٤".to_string())
    );
    assert_eq!(polish_name("ВЗИС.١٢_x.pdf"), "x.pdf");
    // a superscript digit is a number but not a decimal digit
    assert_eq!(extract_numeric_file_id("ВЗИС.²_x.pdf"), None);
}

#[test]
fn extract_full_id_keeps_prefix() {
    assert_eq!(
        extract_full_file_id("ВЗИС.123.456_report.pdf"),
        Some("ВЗИС.123.456".to_string())
    );
    assert_eq!(extract_full_file_id("ВЗИС.7-a"), Some("ВЗИС.7".to_string()));
    assert_eq!(extract_full_file_id("report.pdf"), None);
    assert_eq!(extract_full_file_id(""), None);
}

#[test]
fn polish_name_strips_identifier_and_separators() {
    assert_eq!(polish_name("ВЗИС.123.456_report.pdf"), "report.pdf");
    assert_eq!(polish_name("ВЗИС.123.456 report.pdf"), "report.pdf");
    assert_eq!(polish_name("ВЗИС.1.2-old.doc"), "old.doc");
    assert_eq!(polish_name("ВЗИС.1.2-_ \t-x.doc"), "x.doc");
    assert_eq!(polish_name("ВЗИС.5.pdf"), "ВЗИС.5.pdf");
    assert_eq!(polish_name("ВЗИС.5"), "");
    assert_eq!(polish_name("report.pdf"), "report.pdf");
    assert_eq!(polish_name(""), "");
}

#[test]
fn polish_name_strips_unicode_white_space() {
    assert_eq!(polish_name("ВЗИС.9\u{3000}\u{a0}notes.txt"), "notes.txt");
    assert_eq!(polish_name("ВЗИС.9\u{200b}notes.txt"), "\u{200b}notes.txt");
}

#[test]
fn scenario_prefixed_file_is_indexed() {
    let entries = vec![file("ВЗИС.123.456_report.pdf", "/root/ВЗИС.123.456_report.pdf")];
    let index = index_documents(&entries);
    assert_eq!(index.len(), 1);
    assert_eq!(
        path_of(&index, "123.456"),
        Some("/root/ВЗИС.123.456_report.pdf".to_string())
    );
    assert_eq!(index.get("123.456").unwrap().name, "ВЗИС.123.456_report.pdf");
    assert!(index.get("123").is_none());
}

#[test]
fn scenario_unprefixed_file_is_not_indexed() {
    let entries = vec![file("report.pdf", "/root/report.pdf")];
    let index = index_documents(&entries);
    assert_eq!(index.len(), 0);
    assert!(index.get("report.pdf").is_none());
    assert!(index.get("").is_none());
}

#[test]
fn scenario_nested_file_is_indexed() {
    let entries = vec![dir(
        "archive",
        "/root/archive",
        vec![file("ВЗИС.1.2-old.doc", "/root/archive/ВЗИС.1.2-old.doc")],
    )];
    let index = index_documents(&entries);
    assert_eq!(index.len(), 1);
    assert_eq!(
        path_of(&index, "1.2"),
        Some("/root/archive/ВЗИС.1.2-old.doc".to_string())
    );
}

#[test]
fn scenario_duplicate_id_last_scanned_wins() {
    let entries = vec![
        dir("a", "/root/a", vec![file("ВЗИС.5.5_first.pdf", "/root/a/ВЗИС.5.5_first.pdf")]),
        dir("b", "/root/b", vec![file("ВЗИС.5.5_second.pdf", "/root/b/ВЗИС.5.5_second.pdf")]),
    ];
    let index = index_documents(&entries);
    assert_eq!(index.len(), 1);
    assert_eq!(
        path_of(&index, "5.5"),
        Some("/root/b/ВЗИС.5.5_second.pdf".to_string())
    );
}

#[test]
fn index_skips_other_entries_and_mixes_levels() {
    let entries = vec![
        Entry::Other { name: "ВЗИС.3_socket".to_string() },
        file("ВЗИС.1_a.txt", "/r/ВЗИС.1_a.txt"),
        dir(
            "d",
            "/r/d",
            vec![
                file("plain.txt", "/r/d/plain.txt"),
                dir("e", "/r/d/e", vec![file("ВЗИС.2.1 b.txt", "/r/d/e/ВЗИС.2.1 b.txt")]),
            ],
        ),
        dir("empty", "/r/empty", vec![]),
    ];
    let index = index_documents(&entries);
    assert_eq!(index.len(), 2);
    assert_eq!(path_of(&index, "1"), Some("/r/ВЗИС.1_a.txt".to_string()));
    assert_eq!(path_of(&index, "2.1"), Some("/r/d/e/ВЗИС.2.1 b.txt".to_string()));
    assert!(index.get("3").is_none());
}

#[test]
fn building_twice_gives_the_same_index() {
    let entries = vec![
        file("ВЗИС.1_a.txt", "/r/ВЗИС.1_a.txt"),
        dir("d", "/r/d", vec![file("ВЗИС.2_b.txt", "/r/d/ВЗИС.2_b.txt")]),
    ];
    let first = index_documents(&entries);
    let second = index_documents(&entries);
    assert_eq!(first.len(), second.len());
    for id in ["1", "2", "3"] {
        assert_eq!(path_of(&first, id), path_of(&second, id));
    }
}

#[test]
fn failed_rebuild_keeps_previous_index() {
    let mut current = index_documents(&vec![file("ВЗИС.4_x.pdf", "/r/ВЗИС.4_x.pdf")]);
    let replaced = apply_rebuild(&mut current, Err("permission denied".to_string()));
    assert!(!replaced);
    assert_eq!(path_of(&current, "4"), Some("/r/ВЗИС.4_x.pdf".to_string()));
}

#[test]
fn successful_rebuild_replaces_index() {
    let mut current = index_documents(&vec![file("ВЗИС.4_x.pdf", "/r/ВЗИС.4_x.pdf")]);
    let fresh = index_documents(&vec![file("ВЗИС.8_y.pdf", "/r/ВЗИС.8_y.pdf")]);
    let replaced = apply_rebuild(&mut current, Ok(fresh));
    assert!(replaced);
    assert!(current.get("4").is_none());
    assert_eq!(path_of(&current, "8"), Some("/r/ВЗИС.8_y.pdf".to_string()));
}

#[test]
fn index_insert_replaces_existing_key() {
    let mut index = Index::new();
    assert_eq!(index.len(), 0);
    index.insert(
        "1".to_string(),
        FileRef { name: "a".to_string(), path: b"/a".to_vec() },
    );
    index.insert(
        "2".to_string(),
        FileRef { name: "b".to_string(), path: b"/b".to_vec() },
    );
    index.insert(
        "1".to_string(),
        FileRef { name: "c".to_string(), path: b"/c".to_vec() },
    );
    assert_eq!(index.len(), 2);
    assert_eq!(path_of(&index, "1"), Some("/c".to_string()));
    assert_eq!(path_of(&index, "2"), Some("/b".to_string()));
}

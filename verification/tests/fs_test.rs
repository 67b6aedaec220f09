use org_server::fs_doc::FilesystemDoc;
use org_server::fs_doc::FilesystemSource;
use org_server::fs_doc::list_org_entries;
use org_server::doc::OrgDoc;

#[test]
fn test_listing_keeps_only_org_suffix() {
    let entries = vec![
        "tasks.org".to_string(),
        "events.org".to_string(),
        "tasks.pdf".to_string(),
        "events.pdf".to_string(),
        "notes.txt".to_string(),
        ".org".to_string(),
        "x.Org".to_string(),
    ];
    let ids = list_org_entries(&entries);
    assert_eq!(ids, vec!["/tasks.org".to_string(), "/events.org".to_string()]);
}

#[test]
fn test_listing_of_nothing_is_empty() {
    let ids = list_org_entries(&Vec::new());
    assert!(ids.is_empty());
}

#[test]
fn test_resolve_stays_inside_root() {
    let source = FilesystemSource::new("/srv/org");

    assert_eq!(source.resolve("/tasks.org").unwrap(), "/srv/org/tasks.org");
    // Other path segments of the identifier are discarded: an identifier
    // naming a file elsewhere still resolves to a direct child of the root.
    assert_eq!(source.resolve("/../../etc/passwd").unwrap(), "/srv/org/passwd");
    assert_eq!(source.resolve("/other/dir/tasks.org").unwrap(), "/srv/org/tasks.org");
    assert_eq!(source.resolve("tasks.org").unwrap(), "/srv/org/tasks.org");
}

#[test]
fn test_resolve_ignores_trailing_separators() {
    let source = FilesystemSource::new("/srv/org");

    assert_eq!(source.resolve("tasks.org/").unwrap(), "/srv/org/tasks.org");
    assert_eq!(source.resolve("/dir/name//").unwrap(), "/srv/org/name");
    assert_eq!(source.resolve("/dir/name/.").unwrap(), "/srv/org/name");
    assert_eq!(source.resolve("name/./.").unwrap(), "/srv/org/name");
}

#[test]
fn test_resolve_without_file_name_fails() {
    let source = FilesystemSource::new("/srv/org");

    assert!(source.resolve("").is_none());
    assert!(source.resolve("/").is_none());
    assert!(source.resolve("/..").is_none());
    assert!(source.resolve("/dir/..").is_none());
    assert!(source.resolve(".").is_none());
    assert!(source.resolve("./").is_none());
    assert!(source.resolve("../").is_none());
}

#[test]
fn test_fs_doc_name_strips_directories() {
    let source = FilesystemSource::new("/srv/org");

    assert_eq!(source.doc_name("/tasks.org"), "tasks.org");
    assert_eq!(source.doc_name("/a/b/events.org"), "events.org");
    assert_eq!(source.doc_name("x/"), "x");
    assert_eq!(source.doc_name("/a/b/"), "b");
}

#[test]
fn test_fs_doc_content() {
    let doc = FilesystemDoc::new("* Heading".to_string());
    assert_eq!(doc.content(), "* Heading");
}

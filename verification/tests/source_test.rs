use org_server::doc::OrgDoc;
use org_server::doc::OrgSource;
use org_server::doc::StaticOrgSource;
use org_server::empty_doc::EmptyOrgSource;

#[test]
fn test_static_list_and_read_roundtrip() {
    let mut source = StaticOrgSource::default();
    source.add_doc("tasks.org", "task content");
    source.add_doc("events.org", "event content");

    let mut listed = source.list();
    listed.sort();
    assert_eq!(listed, vec!["/events.org".to_string(), "/tasks.org".to_string()]);

    assert_eq!(source.read("/tasks.org").unwrap().content(), "task content");
    assert_eq!(source.read("/events.org").unwrap().content(), "event content");
}

#[test]
fn test_static_read_by_name_component() {
    let mut source = StaticOrgSource::default();
    source.add_doc("tasks.org", "the content");

    assert_eq!(source.read("tasks.org").unwrap().content(), "the content");
    assert_eq!(source.read("/elsewhere/tasks.org").unwrap().content(), "the content");
}

#[test]
fn test_static_read_ignores_trailing_separators() {
    let mut source = StaticOrgSource::default();
    source.add_doc("tasks.org", "the content");

    assert_eq!(source.read("tasks.org/").unwrap().content(), "the content");
    assert_eq!(source.read("/tasks.org//").unwrap().content(), "the content");
    assert_eq!(source.read("tasks.org/.").unwrap().content(), "the content");
}

#[test]
fn test_static_unknown_id_not_found() {
    let mut source = StaticOrgSource::default();
    source.add_doc("tasks.org", "the content");

    assert!(source.read("/missing.org").is_err());
    assert!(source.read("/").is_err());
    assert!(source.read("..").is_err());
    assert!(source.read("").is_err());
}

#[test]
fn test_static_add_doc_replaces() {
    let mut source = StaticOrgSource::default();
    source.add_doc("tasks.org", "first");
    source.add_doc("tasks.org", "second");

    assert_eq!(source.list().len(), 1);
    assert_eq!(source.read("/tasks.org").unwrap().content(), "second");
}

#[test]
fn test_static_doc_name_is_identity() {
    let source = StaticOrgSource::default();
    assert_eq!(source.doc_name("/tasks.org"), "/tasks.org");
}

#[test]
fn test_empty_source_lists_nothing() {
    let source = EmptyOrgSource;
    assert!(source.list().is_empty());
}

#[test]
fn test_empty_source_read_not_found() {
    let source = EmptyOrgSource;
    assert!(source.read("/tasks.org").is_err());
    assert!(source.read("anything").is_err());
}

use org_server::doc::OrgDoc;
use org_server::doc::OrgSource;
use org_server::doc::StaticOrgSource;
use org_server::empty_doc::EmptyOrgSource;
use org_server::parser::ParserConfig;
use org_server::server::index_entries;
use org_server::server::todos_by_keyword;
use org_server::server::todos_in_doc;

#[test]
fn test_list_todo_by_keyword() {
    let mut source = StaticOrgSource::default();
    source.add_doc("tasks.org", "\n* TODO Get stuff\n* DONE Buy stuff\n* TODO Do stuff\n");
    let config = ParserConfig::default();

    let todo = todos_by_keyword(&source, &config, "TODO");
    let headings: Vec<&str> = todo.iter().map(|item| item.heading()).collect();
    assert_eq!(headings, ["Get stuff", "Do stuff"]);

    let done = todos_by_keyword(&source, &config, "DONE");
    let headings: Vec<&str> = done.iter().map(|item| item.heading()).collect();
    assert_eq!(headings, ["Buy stuff"]);
}

#[test]
fn test_unregistered_keyword_matches_nothing() {
    let mut source = StaticOrgSource::default();
    source.add_doc("tasks.org", "* TODO Get stuff\n* DONE Buy stuff");
    let config = ParserConfig::default();

    assert!(todos_by_keyword(&source, &config, "WAIT").is_empty());
    assert!(todos_by_keyword(&source, &config, "todo").is_empty());
}

#[test]
fn test_aggregation_keeps_document_order() {
    let mut source = StaticOrgSource::default();
    source.add_doc("a.org", "* TODO A1\n* TODO A2");
    source.add_doc("b.org", "* TODO B1");
    let config = ParserConfig::default();

    let items = todos_by_keyword(&source, &config, "TODO");
    let headings: Vec<&str> = items.iter().map(|item| item.heading()).collect();
    assert_eq!(headings, ["A1", "A2", "B1"]);
}

#[test]
fn test_aggregation_over_empty_source() {
    let config = ParserConfig::default();
    assert!(todos_by_keyword(&EmptyOrgSource, &config, "TODO").is_empty());
}

#[test]
fn test_todos_in_one_doc() {
    let config = ParserConfig::default();
    let items = todos_in_doc("* TODO A\n* DONE B\n* TODO C", &config, "TODO");

    assert_eq!(items.len(), 2);
    assert_eq!(items[0].heading(), "A");
    assert_eq!(items[1].heading(), "C");
    assert_eq!(items[0].keyword(), "TODO");
    assert_eq!(items[1].keyword(), "TODO");
}

#[test]
fn test_index_of_empty_source_has_no_entries() {
    assert!(index_entries(&EmptyOrgSource).is_empty());
}

#[test]
fn test_index_entry_link_reads_back() {
    let mut source = StaticOrgSource::default();
    source.add_doc("tasks.org", "the content");

    let entries = index_entries(&source);
    assert_eq!(entries.len(), 1);
    let (name, link) = &entries[0];
    assert_eq!(name, "/tasks.org");
    assert_eq!(link, "/tasks.org");
    assert_eq!(source.read(link).unwrap().content(), "the content");
}

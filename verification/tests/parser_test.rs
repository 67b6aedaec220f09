use org_server::parser::ParserConfig;
use org_server::parser::doc_to_items;

#[test]
fn test_doc_with_no_headings() {
    let doc = "";
    let items = doc_to_items(doc, &ParserConfig::default());
    assert_eq!(items.len(), 0);

    let doc = "some free content";
    let items = doc_to_items(doc, &ParserConfig::default());
    assert_eq!(items.len(), 0);
}

#[test]
fn test_doc_with_todo_headings() {
    let doc = "
* TODO First task
* TODO Second task";

    let items = doc_to_items(doc, &ParserConfig::default());

    assert_eq!(items.len(), 2);

    assert_eq!(items[0].level(), 1);
    assert_eq!(items[0].keyword(), "TODO");
    assert_eq!(items[0].heading(), "First task");

    assert_eq!(items[1].level(), 1);
    assert_eq!(items[1].keyword(), "TODO");
    assert_eq!(items[1].heading(), "Second task");
}

#[test]
fn test_custom_keywords() {
    let doc = "
* NEW First task
* NEXT Second task";
    let config = ParserConfig::with_keywords(&["NEW", "NEXT"], &[]);

    let items = doc_to_items(doc, &config);

    assert_eq!(items.len(), 2);
    assert_eq!(items[0].keyword(), "NEW");
    assert_eq!(items[1].keyword(), "NEXT");
}

#[test]
fn test_default_keywords_in_order() {
    let doc = "* TODO A\n* TODO B";
    let items = doc_to_items(doc, &ParserConfig::default());

    assert_eq!(items.len(), 2);
    assert_eq!(items[0].level(), 1);
    assert_eq!(items[0].keyword(), "TODO");
    assert_eq!(items[0].heading(), "A");
    assert_eq!(items[1].level(), 1);
    assert_eq!(items[1].keyword(), "TODO");
    assert_eq!(items[1].heading(), "B");
}

#[test]
fn test_open_only_table() {
    let doc = "* NEW A\n* NEXT B";
    let config = ParserConfig::with_keywords(&["NEW", "NEXT"], &[]);

    let items = doc_to_items(doc, &config);

    assert_eq!(items.len(), 2);
    assert_eq!(items[0].level(), 1);
    assert_eq!(items[0].keyword(), "NEW");
    assert_eq!(items[0].heading(), "A");
    assert_eq!(items[1].level(), 1);
    assert_eq!(items[1].keyword(), "NEXT");
    assert_eq!(items[1].heading(), "B");
}

#[test]
fn test_unrecognized_keywords_dropped() {
    let doc = "* WAIT A\n* Plain heading\nfree text\n* DONE B";
    let items = doc_to_items(doc, &ParserConfig::default());

    assert_eq!(items.len(), 1);
    assert_eq!(items[0].keyword(), "DONE");
    assert_eq!(items[0].heading(), "B");
}

#[test]
fn test_partial_token_is_no_match() {
    let doc = "* TODOX A\n* TOD B\n* todo C";
    let items = doc_to_items(doc, &ParserConfig::default());

    assert_eq!(items.len(), 0);
}

#[test]
fn test_nesting_level_preserved() {
    let doc = "* TODO top\n*** TODO deep\n********** TODO deeper";
    let items = doc_to_items(doc, &ParserConfig::default());

    assert_eq!(items.len(), 3);
    assert_eq!(items[0].level(), 1);
    assert_eq!(items[1].level(), 3);
    assert_eq!(items[2].level(), 10);
}

#[test]
fn test_duplicate_headings_all_emitted() {
    let doc = "* TODO same\n* TODO same";
    let items = doc_to_items(doc, &ParserConfig::default());

    assert_eq!(items.len(), 2);
    assert_eq!(items[0].heading(), "same");
    assert_eq!(items[1].heading(), "same");
}

#[test]
fn test_keyword_without_heading() {
    let doc = "* TODO";
    let items = doc_to_items(doc, &ParserConfig::default());

    assert_eq!(items.len(), 1);
    assert_eq!(items[0].keyword(), "TODO");
    assert_eq!(items[0].heading(), "");
}

#[test]
fn test_stars_without_space_is_no_headline() {
    let doc = "*TODO A\n***\n*";
    let items = doc_to_items(doc, &ParserConfig::default());

    assert_eq!(items.len(), 0);
}

#[test]
fn test_is_registered() {
    let config = ParserConfig::default();
    assert!(config.is_registered("TODO"));
    assert!(config.is_registered("DONE"));
    assert!(!config.is_registered("NEW"));
    assert!(!config.is_registered("todo"));
}

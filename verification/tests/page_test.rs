use org_server::page::Page;
use scraper::Html;
use scraper::Selector;

#[test]
fn test_empty_page() {
    let page = Page::default();

    assert_eq!("<!DOCTYPE html><html><head></head><body></body></html>", page.render(""));
}

#[test]
fn test_page_with_string_content() {
    let page = Page::default();

    let output = page.render("<h1>heading</h1>");

    let html = Html::parse_document(&output);
    let selector = Selector::parse("body > h1").unwrap();
    assert_eq!(1, html.select(&selector).count());
}

#[test]
fn test_page_with_markup_content() {
    let page = Page::default();

    let inner = format!("<h1>{}</h1>", "heading");
    let output = page.render(&inner);

    let html = Html::parse_document(&output);
    let selector = Selector::parse("body > h1").unwrap();
    assert_eq!(1, html.select(&selector).count());
}

use org_server::doc::StaticOrgDoc;
use org_server::render::DocRender;

#[test]
fn test_render_emtpy_doc() {
    let doc = StaticOrgDoc("");
    assert_eq!(doc.render(), "");
}

#[test]
fn test_render_heading() {
    let doc_1 = StaticOrgDoc("* Main heading");
    assert_eq!(doc_1.render(), "<h1>Main heading</h1>");

    let doc_2 = StaticOrgDoc("** Sub-heading");
    assert_eq!(doc_2.render(), "<h2>Sub-heading</h2>");
}

#[test]
fn test_render_several_headings() {
    let doc = StaticOrgDoc("* One\nplain text\n** Two\n* Three");
    assert_eq!(doc.render(), "<h1>One</h1><h2>Two</h2><h1>Three</h1>");
}

#[test]
fn test_render_strips_default_keywords() {
    let doc = StaticOrgDoc("* TODO Task\n* DONE Finished\n* NEXT Kept");
    assert_eq!(doc.render(), "<h1>Task</h1><h1>Finished</h1><h1>NEXT Kept</h1>");
}

#[test]
fn test_render_deep_heading_level() {
    let doc = StaticOrgDoc("************ Deep");
    assert_eq!(doc.render(), "<h12>Deep</h12>");
}

//! The HTML page frame around rendered content.

use vstd::prelude::*;

verus! {

/// An HTML page; `render` wraps content in the fixed document frame.
pub struct Page;

impl Page {
    /// Wraps `inner` in the page frame.
    pub fn render(&self, inner: &str) -> (out: String)
        ensures
            out@ == "<!DOCTYPE html><html><head>"@ + inner@ + "</head><body></body></html>"@,
    {
        let mut out = String::from_str("<!DOCTYPE html><html><head>");
        out.append(inner);
        out.append("</head><body></body></html>");
        proof {
            assert(out@ =~= "<!DOCTYPE html><html><head>"@ + inner@
                + "</head><body></body></html>"@);
        }
        out
    }
}

impl Default for Page {
    fn default() -> (p: Page)
        ensures
            p == Page,
    {
        Page
    }
}

} // verus!

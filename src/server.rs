//! Plain logic of the reading-list pages.

use vstd::prelude::*;
use crate::db::ListItem;
use vstd::string::*;

verus! {

/// The style sheet of the list pages.
pub const LIST_PAGE_STYLES: &'static str = "body { font-family: serif; max-width: 1200px; margin: 2rem auto; padding: 0 1rem; font-size: 18px; background: #faf9f5; }
     h1 { padding-bottom: 0.5rem; }
     ul { list-style: none; padding: 0; }
     li { padding: 0.3rem 0; }
     a:hover { background: #e9e6da; }
     .count { color: #666; font-size: 0.9rem; }
     .status { margin-right: 0.4rem; }
     .status-none { color: #cf222e; }
     .status-short { color: #c6613f; }
     .status-good { color: #67c23a; display: none; }
     nav { margin-bottom: 1rem; }
     nav a { margin-right: 1rem; }
     @media (min-width: 768px) {
       ul { columns: 2; column-gap: 2rem; }
       li { break-inside: avoid; }
     }";

/// The style sheet of the list pages.
pub fn list_page_styles() -> (r: &'static str)
    ensures
        r@ == LIST_PAGE_STYLES@,
{
    LIST_PAGE_STYLES
}

/// The text an item is listed under: its title, or its URL where the title is empty.
pub open spec fn label_of(item: ListItem) -> Seq<char> {
    if item.title@.len() == 0 {
        item.url@
    } else {
        item.title@
    }
}

/// The text an item is listed under.
pub fn item_label(item: &ListItem) -> (r: &String)
    ensures
        r@ == label_of(*item),
{
    if item.title.as_str().unicode_len() == 0 {
        &item.url
    } else {
        &item.title
    }
}

} // verus!

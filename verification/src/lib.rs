//! A small crypto-news client library: feed normalization, a cache codec,
//! date formatting, and the session state machine behind the UI.

pub mod codec;
pub mod news;
pub mod session;
pub mod text;
pub mod util;

use vstd::prelude::*;

verus! {

/// One normalized feed entry. `title`, `summary` and `date` are never empty
/// when an item comes out of the normalizer; `link` may be empty, meaning
/// "no external link".
#[derive(Clone, Debug, PartialEq)]
pub struct NewsItem {
    pub title: String,
    pub summary: String,
    pub date: String,
    pub link: String,
}

/// The mathematical content of a [`NewsItem`]: its four fields as character
/// sequences.
pub ghost struct ItemModel {
    pub title: Seq<char>,
    pub summary: Seq<char>,
    pub date: Seq<char>,
    pub link: Seq<char>,
}

impl View for NewsItem {
    type V = ItemModel;

    open spec fn view(&self) -> ItemModel {
        ItemModel {
            title: self.title@,
            summary: self.summary@,
            date: self.date@,
            link: self.link@,
        }
    }
}

impl DeepView for NewsItem {
    type V = ItemModel;

    open spec fn deep_view(&self) -> ItemModel {
        self.view()
    }
}

impl Default for NewsItem {
    /// The empty item: every field blank.
    fn default() -> (r: Self)
        ensures
            r@.title.len() == 0,
            r@.summary.len() == 0,
            r@.date.len() == 0,
            r@.link.len() == 0,
    {
        NewsItem { title: String::new(), summary: String::new(), date: String::new(), link: String::new() }
    }
}

} // verus!

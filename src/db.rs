//! Records the store hands out, and what is computed from them.

use vstd::prelude::*;
use crate::links::{parse_url, url_parse_of};

verus! {

/// Below this many characters of extracted text an article counts as short.
pub const SHORT_CONTENT_LIMIT: usize = 1000;

/// How much readable content an item has, as shown in the reading list.
#[derive(Debug, Clone, Copy, PartialEq, Eq, Structural)]
pub enum ContentStatus {
    Missing,
    Short,
    Good,
}

/// The status that a stored text length (absent when nothing was extracted) stands for.
pub open spec fn status_of_len(markdown_len: Option<usize>) -> ContentStatus {
    match markdown_len {
        Option::None => ContentStatus::Missing,
        Option::Some(len) => if len < SHORT_CONTENT_LIMIT {
            ContentStatus::Short
        } else {
            ContentStatus::Good
        },
    }
}

impl ContentStatus {
    /// A one-character glyph for the status.
    pub fn icon(&self) -> (r: &'static str)
        ensures
            *self == ContentStatus::Missing ==> r@ == "○"@,
            *self == ContentStatus::Short ==> r@ == "◐"@,
            *self == ContentStatus::Good ==> r@ == "●"@,
    {
        match self {
            ContentStatus::Missing => "○",
            ContentStatus::Short => "◐",
            ContentStatus::Good => "●",
        }
    }

    /// The style class the status is rendered with.
    pub fn css_class(&self) -> (r: &'static str)
        ensures
            *self == ContentStatus::Missing ==> r@ == "status-none"@,
            *self == ContentStatus::Short ==> r@ == "status-short"@,
            *self == ContentStatus::Good ==> r@ == "status-good"@,
    {
        match self {
            ContentStatus::Missing => "status-none",
            ContentStatus::Short => "status-short",
            ContentStatus::Good => "status-good",
        }
    }
}

/// One entry of the reading list.
#[derive(Debug, Clone)]
pub struct ListItem {
    pub url: String,
    pub title: String,
    /// Length of the extracted text, if any was stored.
    pub markdown_len: Option<usize>,
}

impl ListItem {
    /// Classifies the item by the length of its extracted text.
    pub fn content_status(&self) -> (r: ContentStatus)
        ensures
            r == status_of_len(self.markdown_len),
    {
        match self.markdown_len {
            None => ContentStatus::Missing,
            Some(len) => if len < SHORT_CONTENT_LIMIT {
                ContentStatus::Short
            } else {
                ContentStatus::Good
            },
        }
    }
}

/// A stored article as the reader view shows it.
#[derive(Debug, Clone)]
pub struct Article {
    pub url: String,
    pub title: String,
    pub markdown: Option<String>,
}

/// A stored item that has not been crawled yet.
#[derive(Debug, Clone)]
pub struct ItemHandle {
    /// The normalized absolute URL.
    pub url: String,
}

/// A stored item whose extracted text has not been embedded yet.
#[derive(Debug, Clone)]
pub struct ItemForChunking {
    /// The normalized absolute URL.
    pub url: String,
    pub markdown: String,
}

/// The normalized forms of those of `urls` that parse as absolute URLs, in order.
pub open spec fn parsed_urls(urls: Seq<Seq<char>>) -> Seq<Seq<char>>
    decreases urls.len(),
{
    if urls.len() == 0 {
        Seq::empty()
    } else {
        let head = parsed_urls(urls.drop_last());
        match url_parse_of(urls.last()) {
            Some(u) => head.push(u),
            None => head,
        }
    }
}

pub open spec fn string_views(s: Seq<String>) -> Seq<Seq<char>> {
    s.map_values(|x: String| x@)
}

pub open spec fn handle_urls(s: Seq<ItemHandle>) -> Seq<Seq<char>> {
    s.map_values(|h: ItemHandle| h.url@)
}

/// The crawl handles for the stored URLs of uncrawled items; a stored URL that
/// does not parse is skipped.
pub fn uncrawled_handles(urls: &Vec<String>) -> (r: Vec<ItemHandle>)
    ensures
        handle_urls(r@) == parsed_urls(string_views(urls@)),
{
    let mut out: Vec<ItemHandle> = Vec::new();
    let mut i: usize = 0;
    while i < urls.len()
        invariant
            i <= urls@.len(),
            handle_urls(out@) == parsed_urls(string_views(urls@.subrange(0, i as int))),
        decreases urls@.len() - i,
    {
        let parsed = parse_url(urls[i].as_str());
        proof {
            let pre = string_views(urls@.subrange(0, i as int));
            let next = string_views(urls@.subrange(0, i + 1));
            assert(next.drop_last() =~= pre);
            assert(next.last() == urls@[i as int]@);
        }
        match parsed {
            Some(url) => {
                let ghost before = out@;
                out.push(ItemHandle { url });
                assert(handle_urls(out@) =~= handle_urls(before).push(out@.last().url@));
            },
            None => {},
        }
        i = i + 1;
    }
    assert(urls@.subrange(0, urls@.len() as int) =~= urls@);
    out
}

/// The pairs of `rows` whose URL parses as an absolute URL, with that URL normalized.
pub open spec fn parsed_rows(rows: Seq<(Seq<char>, Seq<char>)>) -> Seq<(Seq<char>, Seq<char>)>
    decreases rows.len(),
{
    if rows.len() == 0 {
        Seq::empty()
    } else {
        let head = parsed_rows(rows.drop_last());
        match url_parse_of(rows.last().0) {
            Some(u) => head.push((u, rows.last().1)),
            None => head,
        }
    }
}

pub open spec fn row_views(s: Seq<(String, String)>) -> Seq<(Seq<char>, Seq<char>)> {
    s.map_values(|x: (String, String)| (x.0@, x.1@))
}

pub open spec fn chunking_views(s: Seq<ItemForChunking>) -> Seq<(Seq<char>, Seq<char>)> {
    s.map_values(|x: ItemForChunking| (x.url@, x.markdown@))
}

/// The items to embed, out of the stored (URL, text) pairs of items with text
/// and no embedding; a pair whose URL does not parse is skipped.
pub fn chunking_items(rows: &Vec<(String, String)>) -> (r: Vec<ItemForChunking>)
    ensures
        chunking_views(r@) == parsed_rows(row_views(rows@)),
{
    let mut out: Vec<ItemForChunking> = Vec::new();
    let mut i: usize = 0;
    while i < rows.len()
        invariant
            i <= rows@.len(),
            chunking_views(out@) == parsed_rows(row_views(rows@.subrange(0, i as int))),
        decreases rows@.len() - i,
    {
        let row = &rows[i];
        let parsed = parse_url(row.0.as_str());
        proof {
            let pre = row_views(rows@.subrange(0, i as int));
            let next = row_views(rows@.subrange(0, i + 1));
            assert(next.drop_last() =~= pre);
            assert(next.last() == (rows@[i as int].0@, rows@[i as int].1@));
        }
        match parsed {
            Some(url) => {
                let ghost before = out@;
                out.push(ItemForChunking { url, markdown: row.1.clone() });
                assert(chunking_views(out@) =~= chunking_views(before).push((out@.last().url@, out@.last().markdown@)));
            },
            None => {},
        }
        i = i + 1;
    }
    assert(rows@.subrange(0, rows@.len() as int) =~= rows@);
    out
}

fn find_status(hist: &Vec<(Option<u16>, usize)>, code: Option<u16>) -> (r: Option<usize>)
    ensures
        r matches Some(j) ==> j < hist@.len() && hist@[j as int].0 == code,
        r is None ==> forall|i: int| 0 <= i < hist@.len() ==> hist@[i].0 != code,
{
    let mut j: usize = 0;
    while j < hist.len()
        invariant
            j <= hist@.len(),
            forall|i: int| 0 <= i < j ==> hist@[i].0 != code,
        decreases hist@.len() - j,
    {
        if hist[j].0 == code {
            return Some(j);
        }
        j = j + 1;
    }
    None
}

/// How often each status of the latest crawl occurs among `codes` (absent for
/// items never crawled): one entry per distinct status, in order of first
/// occurrence.
pub fn crawl_status_histogram(codes: &Vec<Option<u16>>) -> (r: Vec<(Option<u16>, usize)>)
    ensures
        forall|i: int, j: int| 0 <= i < j < r@.len() ==> r@[i].0 != r@[j].0,
        forall|i: int| 0 <= i < r@.len() ==> #[trigger] r@[i].1 == codes@.to_multiset().count(r@[i].0),
        forall|i: int| 0 <= i < r@.len() ==> codes@.to_multiset().count(#[trigger] r@[i].0) > 0,
        forall|k: Option<u16>| codes@.to_multiset().count(k) > 0 ==> exists|i: int| 0 <= i < r@.len() && #[trigger] r@[i].0 == k,
{
    broadcast use vstd::seq_lib::group_to_multiset_ensures;
    let mut hist: Vec<(Option<u16>, usize)> = Vec::new();
    let mut n: usize = 0;
    while n < codes.len()
        invariant
            n <= codes@.len(),
            forall|i: int, j: int| 0 <= i < j < hist@.len() ==> hist@[i].0 != hist@[j].0,
            forall|i: int| 0 <= i < hist@.len() ==> #[trigger] hist@[i].1 == codes@.subrange(0, n as int).to_multiset().count(hist@[i].0),
            forall|i: int| 0 <= i < hist@.len() ==> codes@.subrange(0, n as int).to_multiset().count(#[trigger] hist@[i].0) > 0,
            forall|k: Option<u16>| codes@.subrange(0, n as int).to_multiset().count(k) > 0 ==> exists|i: int| 0 <= i < hist@.len() && #[trigger] hist@[i].0 == k,
        decreases codes@.len() - n,
    {
        let code = codes[n];
        let ghost seen = codes@.subrange(0, n as int);
        let ghost next = codes@.subrange(0, n + 1);
        assert(next =~= seen.push(code));
        assert forall|k: Option<u16>| #[trigger] next.to_multiset().count(k) == seen.to_multiset().count(k) + (if k == code { 1nat } else { 0nat }) by {
            broadcast use vstd::multiset::group_multiset_axioms;
            seen.to_multiset_ensures();
            assert(seen.push(code).to_multiset() =~= seen.to_multiset().insert(code));
        }
        assert(seen.to_multiset().count(code) < codes@.len()) by {
            broadcast use vstd::multiset::group_multiset_axioms;
            seen.to_multiset_ensures();
            assert(seen.to_multiset().len() == seen.len());
        }
        let ghost old_hist = hist@;
        let slot = find_status(&hist, code);
        match slot {
            Some(j) => {
                let count = hist[j].1;
                hist.set(j, (code, count + 1));
            },
            None => {
                hist.push((code, 1));
            },
        }
        assert forall|k: Option<u16>| next.to_multiset().count(k) > 0 implies exists|i: int| 0 <= i < hist@.len() && #[trigger] hist@[i].0 == k by {
            if k == code {
                match slot {
                    Some(j) => assert(hist@[j as int].0 == k),
                    None => assert(hist@[old_hist.len() as int].0 == k),
                }
            } else {
                let i = choose|i: int| 0 <= i < old_hist.len() && #[trigger] old_hist[i].0 == k;
                assert(hist@[i].0 == k);
            }
        }
        n = n + 1;
    }
    assert(codes@.subrange(0, codes@.len() as int) =~= codes@);
    hist
}

} // verus!

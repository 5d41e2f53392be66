use reading_addiction::db::{chunking_items, crawl_status_histogram, uncrawled_handles, ContentStatus, ListItem};
use reading_addiction::links::normalize_url;
use reading_addiction::server::{item_label, list_page_styles};

fn item(len: Option<usize>) -> ListItem {
    ListItem { url: "https://example.com/".to_string(), title: "Example".to_string(), markdown_len: len }
}

#[test]
fn content_status_by_length() {
    assert_eq!(item(None).content_status(), ContentStatus::Missing);
    assert_eq!(item(Some(0)).content_status(), ContentStatus::Short);
    assert_eq!(item(Some(999)).content_status(), ContentStatus::Short);
    assert_eq!(item(Some(1000)).content_status(), ContentStatus::Good);
}

#[test]
fn status_glyphs_and_classes() {
    assert_eq!(ContentStatus::Missing.icon(), "○");
    assert_eq!(ContentStatus::Short.icon(), "◐");
    assert_eq!(ContentStatus::Good.icon(), "●");
    assert_eq!(ContentStatus::Missing.css_class(), "status-none");
    assert_eq!(ContentStatus::Short.css_class(), "status-short");
    assert_eq!(ContentStatus::Good.css_class(), "status-good");
}

#[test]
fn urls_are_normalized_or_rejected() {
    assert_eq!(normalize_url("https://Example.com"), Some("https://example.com/".to_string()));
    assert_eq!(normalize_url("relative/path"), None);
    let stored = vec!["https://a.example/x".to_string(), "nope".to_string(), "HTTP://B.example".to_string()];
    let handles: Vec<String> = uncrawled_handles(&stored).into_iter().map(|h| h.url).collect();
    assert_eq!(handles, vec!["https://a.example/x".to_string(), "http://b.example/".to_string()]);
}

#[test]
fn chunking_rows_keep_their_text() {
    let rows = vec![
        ("https://a.example".to_string(), "text a".to_string()),
        ("::".to_string(), "text b".to_string()),
    ];
    let items = chunking_items(&rows);
    assert_eq!(items.len(), 1);
    assert_eq!(items[0].url, "https://a.example/");
    assert_eq!(items[0].markdown, "text a");
}

#[test]
fn histogram_counts_each_status() {
    let codes = vec![Some(200), None, Some(404), Some(200), None, Some(200)];
    let hist = crawl_status_histogram(&codes);
    assert_eq!(hist, vec![(Some(200), 3), (None, 2), (Some(404), 1)]);
    assert!(crawl_status_histogram(&vec![]).is_empty());
}

#[test]
fn list_labels_and_styles() {
    let titled = item(None);
    assert_eq!(item_label(&titled), "Example");
    let untitled = ListItem { url: "https://u.example/".to_string(), title: String::new(), markdown_len: None };
    assert_eq!(item_label(&untitled), "https://u.example/");
    assert!(list_page_styles().contains(".status-good"));
}

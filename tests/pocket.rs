use reading_addiction::pocket::{parse_usize, PocketError, PocketField, PocketReader, PocketStatus, PocketTags};

#[test]
fn trivial() {
    let data = "\
title,url,time_added,tags,status
What Do You Want to Do With Your Life? | Scott H Young,https://www.scotthyoung.com/blog/2007/07/29/what-do-you-want-to-do-with-your-life/,1592774907,,archive
Taoism,https://en.wikipedia.org/wiki/Taoism,1614076299,meaning,unread
https://www.yudkowsky.net/rational/virtues,https://www.yudkowsky.net/rational/virtues,1642196007,rationality|self improvement,unread";

    let pr = PocketReader::new(data.as_bytes());
    let items = pr.read().expect("should parse pocket items correctly");
    println!("{items:#?}");
}

#[test]
fn export_rows_become_items() {
    let data = "\
title,url,time_added,tags,status
Taoism,https://en.wikipedia.org/wiki/Taoism,1614076299,meaning,unread
Virtues,https://www.yudkowsky.net/rational/virtues,1642196007,rationality|self improvement,archive
Bare,https://example.com,0x10,,unread";
    let items = PocketReader::new(data.as_bytes()).read().unwrap();
    assert_eq!(items.len(), 3);
    assert_eq!(items[0].title, "Taoism");
    assert_eq!(items[0].url, "https://en.wikipedia.org/wiki/Taoism");
    assert_eq!(items[0].time_added, 1614076299);
    assert_eq!(items[0].tags.to_string(), "meaning");
    assert_eq!(items[0].status, PocketStatus::Unread);
    assert_eq!(items[1].tags.to_string(), "rationality,self improvement");
    assert_eq!(items[1].status, PocketStatus::Archive);
    // The URL is stored in its normalized form.
    assert_eq!(items[2].url, "https://example.com/");
    assert_eq!(items[2].time_added, 16);
    assert_eq!(items[2].tags.clone().into_iter().count(), 0);
}

#[test]
fn columns_are_found_by_name() {
    let data = "\
status,extra,tags,time_added,url,title
unread,x,a|b,+7,https://example.org/page,Reordered";
    let items = PocketReader::new(data.as_bytes()).read().unwrap();
    assert_eq!(items.len(), 1);
    assert_eq!(items[0].title, "Reordered");
    assert_eq!(items[0].time_added, 7);
    let tags: Vec<String> = items[0].tags.clone().into_iter().map(|t| t.0).collect();
    assert_eq!(tags, vec!["a".to_string(), "b".to_string()]);
}

#[test]
fn empty_export_has_no_items() {
    let items = PocketReader::new("title,url,time_added,tags,status\n".as_bytes()).read().unwrap();
    assert!(items.is_empty());
    let items = PocketReader::new("".as_bytes()).read().unwrap();
    assert!(items.is_empty());
}

#[test]
fn export_errors_name_their_cause() {
    let missing = "title,url,time_added,status\nT,https://example.com/,1,unread";
    assert_eq!(PocketReader::new(missing.as_bytes()).read().unwrap_err(), PocketError::BadHeader(PocketField::Tags));
    let twice = "title,url,url,time_added,tags,status\nT,https://a.com/,https://b.com/,1,,unread";
    assert_eq!(PocketReader::new(twice.as_bytes()).read().unwrap_err(), PocketError::BadHeader(PocketField::Url));
    let bad_url = "title,url,time_added,tags,status\nT,https://example.com/,1,,unread\nT,not a url,1,,unread";
    assert_eq!(PocketReader::new(bad_url.as_bytes()).read().unwrap_err(), PocketError::BadUrl(1));
    let bad_time = "title,url,time_added,tags,status\nT,https://example.com/,yesterday,,unread";
    assert_eq!(PocketReader::new(bad_time.as_bytes()).read().unwrap_err(), PocketError::BadTimeAdded(0));
    let bad_status = "title,url,time_added,tags,status\nT,https://example.com/,1,,deleted";
    assert_eq!(PocketReader::new(bad_status.as_bytes()).read().unwrap_err(), PocketError::BadStatus(0));
    let ragged = "title,url,time_added,tags,status\nT,https://example.com/,1,,unread,extra";
    assert_eq!(PocketReader::new(ragged.as_bytes()).read().unwrap_err(), PocketError::Csv);
}

#[test]
fn tags_split_and_join() {
    assert_eq!(PocketTags::parse("").to_string(), "");
    assert_eq!(PocketTags::parse("one").to_string(), "one");
    assert_eq!(PocketTags::parse("a|b c|d").to_string(), "a,b c,d");
    let pieces: Vec<String> = PocketTags::parse("x||y|").into_iter().map(|t| t.0).collect();
    assert_eq!(pieces, vec!["x".to_string(), "".to_string(), "y".to_string(), "".to_string()]);
}

#[test]
fn status_names() {
    assert_eq!(PocketStatus::parse("unread"), Some(PocketStatus::Unread));
    assert_eq!(PocketStatus::parse("archive"), Some(PocketStatus::Archive));
    assert_eq!(PocketStatus::parse("Archive"), None);
    assert_eq!(PocketStatus::Unread.to_string(), "unread");
    assert_eq!(PocketStatus::Archive.to_string(), "archive");
}

#[test]
fn integers_as_csv_reads_them() {
    assert_eq!(parse_usize("1614076299"), Some(1614076299));
    assert_eq!(parse_usize("+42"), Some(42));
    assert_eq!(parse_usize("0x1F"), Some(31));
    assert_eq!(parse_usize("0xff"), Some(255));
    assert_eq!(parse_usize(""), None);
    assert_eq!(parse_usize("+"), None);
    assert_eq!(parse_usize("0x"), None);
    assert_eq!(parse_usize("-1"), None);
    assert_eq!(parse_usize("12a"), None);
    assert_eq!(parse_usize(&usize::MAX.to_string()), Some(usize::MAX));
    assert_eq!(parse_usize("99999999999999999999999"), None);
}

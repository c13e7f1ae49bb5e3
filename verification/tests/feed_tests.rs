use chrono::{Datelike, TimeZone, Timelike};
use rreader::feed::{entries_from_body, format_display_date, DateParts, FeedError};

fn today_parts() -> (DateParts, chrono::DateTime<chrono::Local>) {
    let now = chrono::Local::now();
    let parts = DateParts {
        year: now.year(),
        month: now.month() as u8,
        day: now.day() as u8,
        hour: now.hour() as u8,
        minute: now.minute() as u8,
    };
    (parts, now)
}

#[test]
fn same_day_shows_clock_only() {
    let today = DateParts { year: 2024, month: 3, day: 9, hour: 20, minute: 0 };
    let p = DateParts { year: 2024, month: 3, day: 9, hour: 10, minute: 5 };
    assert_eq!(format_display_date(p, today), "10:05");
}

#[test]
fn other_day_shows_month_day_and_clock() {
    let today = DateParts { year: 2024, month: 3, day: 9, hour: 20, minute: 0 };
    let p = DateParts { year: 2024, month: 1, day: 2, hour: 3, minute: 4 };
    assert_eq!(format_display_date(p, today), "Jan 02, 03:04");
    let q = DateParts { year: 2023, month: 12, day: 31, hour: 23, minute: 59 };
    assert_eq!(format_display_date(q, today), "Dec 31, 23:59");
}

#[test]
fn rss_item_today_renders_clock_and_source() {
    let (today, now) = today_parts();
    let local_ten = chrono::Local
        .with_ymd_and_hms(now.year(), now.month(), now.day(), 10, 0, 0)
        .unwrap();
    let pub_date = local_ten.to_rfc2822();
    let body = format!(
        "<rss version=\"2.0\"><channel><title>T</title><link>http://t</link>\
         <description>D</description><item><title>Hi</title>\
         <link>http://a/item</link><pubDate>{}</pubDate></item></channel></rss>",
        pub_date
    );
    let now_epoch = now.timestamp();
    let entries = entries_from_body(&body, &"A".to_string(), false, now_epoch, today).unwrap();
    assert_eq!(entries.len(), 1);
    assert_eq!(entries[0].title, "Hi");
    assert_eq!(entries[0].source_name, "A");
    assert_eq!(entries[0].pub_date, "10:00");
    assert_eq!(entries[0].url, "http://a/item");
    assert_eq!(entries[0].id, entries[0].timestamp);
    assert_eq!(entries[0].timestamp, local_ten.timestamp());
}

#[test]
fn rss_item_without_title_gets_placeholder() {
    let (today, now) = today_parts();
    let body = "<rss version=\"2.0\"><channel><title>T</title><link>http://t</link>\
                <description>D</description><item><link>http://a</link></item>\
                </channel></rss>";
    let entries = entries_from_body(body, &"S".to_string(), false, now.timestamp(), today)
        .unwrap();
    assert_eq!(entries.len(), 1);
    assert_eq!(entries[0].title, "(No title)");
    // An absent date falls back to the fetch moment.
    assert_eq!(entries[0].timestamp, now.timestamp());
}

#[test]
fn atom_entry_uses_alternate_link_and_stripped_author() {
    let (today, now) = today_parts();
    let body = "<?xml version=\"1.0\"?>\
        <feed xmlns=\"http://www.w3.org/2005/Atom\">\
        <title>F</title><id>urn:f</id><updated>2024-01-02T03:04:05Z</updated>\
        <entry><title>E1</title><id>urn:e1</id>\
        <updated>2024-01-02T03:04:05Z</updated>\
        <link rel=\"self\" href=\"http://self\"/>\
        <link rel=\"alternate\" href=\"http://alt\"/>\
        <author><name>/u/bob</name></author>\
        </entry></feed>";
    let entries = entries_from_body(body, &"Src".to_string(), true, now.timestamp(), today)
        .unwrap();
    assert_eq!(entries.len(), 1);
    assert_eq!(entries[0].title, "E1");
    assert_eq!(entries[0].url, "http://alt");
    assert_eq!(entries[0].source_name, "bob");
    let expected = chrono::DateTime::parse_from_rfc3339("2024-01-02T03:04:05Z")
        .unwrap()
        .timestamp();
    assert_eq!(entries[0].timestamp, expected);
    assert!(!entries[0].pub_date.is_empty());
}

#[test]
fn atom_entry_without_author_falls_back_to_source() {
    let (today, now) = today_parts();
    let body = "<?xml version=\"1.0\"?>\
        <feed xmlns=\"http://www.w3.org/2005/Atom\">\
        <title>F</title><id>urn:f</id><updated>2024-01-02T03:04:05Z</updated>\
        <entry><title>E1</title><id>urn:e1</id>\
        <updated>2024-01-02T03:04:05Z</updated>\
        <link href=\"http://only\"/>\
        </entry></feed>";
    let entries = entries_from_body(body, &"Src".to_string(), true, now.timestamp(), today)
        .unwrap();
    assert_eq!(entries.len(), 1);
    assert_eq!(entries[0].source_name, "Src");
    assert_eq!(entries[0].url, "http://only");
}

#[test]
fn unparsable_document_is_a_parse_error() {
    let (today, now) = today_parts();
    let r = entries_from_body("this is not xml", &"S".to_string(), false, now.timestamp(), today);
    assert!(matches!(r, Err(FeedError::ParseError)));
}

use hns::story::{info_line, is_show_hn, lines_of, story_lines, Story};
use hns::text::{decimal_chars, from_chars};
use hns::timestamp::{format_timestamp, timestamp_label};

fn some(s: &str) -> Option<String> {
    Some(s.to_string())
}

#[test]
fn timestamp_is_formatted_in_utc() {
    assert_eq!(format_timestamp(0), "1970-01-01 00:00:00 UTC");
    assert_eq!(format_timestamp(1431648000), "2015-05-15 00:00:00 UTC");
    assert_eq!(format_timestamp(1700000000), "2023-11-14 22:13:20 UTC");
    assert_eq!(format_timestamp(-1), "1969-12-31 23:59:59 UTC");
}

#[test]
fn timestamp_out_of_range_is_invalid() {
    assert_eq!(format_timestamp(i64::MAX), "Invalid timestamp");
    assert_eq!(format_timestamp(i64::MIN), "Invalid timestamp");
}

#[test]
fn timestamp_label_keeps_the_text() {
    assert_eq!(timestamp_label(some("2015-05-15 00:00:00 UTC")), "2015-05-15 00:00:00 UTC");
    assert_eq!(timestamp_label(None), "Invalid timestamp");
}

#[test]
fn decimal_chars_agrees_with_std() {
    for n in [0u32, 1, 9, 10, 11, 99, 100, 101, 12345, 4000000000, u32::MAX] {
        assert_eq!(from_chars(&decimal_chars(n)), n.to_string());
    }
}

#[test]
fn show_hn_is_told_by_the_title() {
    assert!(is_show_hn(&some("Show HN: A thing")));
    assert!(is_show_hn(&some("Show HN:")));
    assert!(!is_show_hn(&some("show hn: a thing")));
    assert!(!is_show_hn(&some(" Show HN: A thing")));
    assert!(!is_show_hn(&some("Show HN")));
    assert!(!is_show_hn(&some("")));
    assert!(!is_show_hn(&None));
}

#[test]
fn info_line_names_time_author_and_number() {
    assert_eq!(
        info_line(&some("2015-05-15 00:00:00 UTC"), &some("pg"), 8863),
        "Timestamp: 2015-05-15 00:00:00 UTC | By: pg | ID: 8863"
    );
    assert_eq!(info_line(&None, &None, 0), "Timestamp: N/A | By: N/A | ID: 0");
    assert_eq!(
        info_line(&some("Invalid timestamp"), &None, u32::MAX),
        "Timestamp: Invalid timestamp | By: N/A | ID: 4294967295"
    );
}

#[test]
fn lines_of_an_ordinary_item_with_text() {
    let lines = lines_of("info".to_string(), &some("A title"), &some("http://x"), &some("the text"));
    assert_eq!(lines, vec!["info", "Title: A title", "Text: the text"]);
}

#[test]
fn lines_of_an_ordinary_item_without_text() {
    let lines = lines_of("info".to_string(), &some("A title"), &some("http://x"), &None);
    assert_eq!(lines, vec!["info", "Title: A title", "URL: http://x"]);
    let bare = lines_of("info".to_string(), &None, &None, &None);
    assert_eq!(bare, vec!["info"]);
}

#[test]
fn lines_of_an_item_with_empty_text() {
    let lines = lines_of("info".to_string(), &some("A title"), &some("http://x"), &some(""));
    assert_eq!(lines, vec!["info", "Title: A title"]);
}

#[test]
fn lines_of_a_presentation() {
    let with_text =
        lines_of("info".to_string(), &some("Show HN: It"), &some("http://x"), &some("the text"));
    assert_eq!(with_text, vec!["info", "Title: Show HN: It", "URL: http://x", "Text: the text"]);
    let without_text = lines_of("info".to_string(), &some("Show HN: It"), &some("http://x"), &None);
    assert_eq!(without_text, vec!["info", "Title: Show HN: It", "URL: http://x"]);
    let without_link = lines_of("info".to_string(), &some("Show HN: It"), &None, &None);
    assert_eq!(without_link, vec!["info", "Title: Show HN: It"]);
}

#[test]
fn story_lines_put_it_together() {
    let story = Story {
        id: 42,
        title: some("Ask HN: Why?"),
        text: some("Because &amp;amp; so<p>on, see <a href=\"http://x\">here</a>"),
        time: Some(0),
        url: None,
        by: some("someone"),
    };
    assert_eq!(
        story_lines(&story),
        vec![
            "Timestamp: 1970-01-01 00:00:00 UTC | By: someone | ID: 42",
            "Title: Ask HN: Why?",
            "Text: Because & soon, see here (http://x)",
        ]
    );
}

#[test]
fn story_lines_of_a_bare_item() {
    let story = Story { id: 7, title: None, text: None, time: None, url: some("http://x"), by: None };
    assert_eq!(story_lines(&story), vec!["Timestamp: N/A | By: N/A | ID: 7", "URL: http://x"]);
}

#[test]
fn story_lines_skip_a_text_that_renders_to_nothing() {
    let story = Story {
        id: 7,
        title: some("T"),
        text: some("<p> </p><!-- nothing -->"),
        time: Some(i64::MAX),
        url: some("http://x"),
        by: None,
    };
    assert_eq!(
        story_lines(&story),
        vec!["Timestamp: Invalid timestamp | By: N/A | ID: 7", "Title: T"]
    );
}

use htma_scanner::dates::{Date, Time};
use htma_scanner::diff::{check_for_new_shows, shows_equal};
use htma_scanner::errors::{ConfigError, ParseError};
use htma_scanner::extract::{get_shows, get_shows_by_category};
use htma_scanner::hebrew::{parse_date, parse_time};
use htma_scanner::message::format_notification;
use htma_scanner::shows::{get_url, shows_valid, Category, Show};
use htma_scanner::snapshot::{load_snapshot, save_snapshot};
use htma_scanner::sort::sort_shows;

fn show(title: &str, y: u16, mo: u8, d: u8, h: u8, mi: u8, category: Category) -> Show {
    Show {
        title: title.to_string(),
        date: Date { year: y, month: mo, day: d },
        time: Time { hour: h, minute: mi, second: 0 },
        category,
    }
}

#[test]
fn parse_date_hebrew() {
    let d = parse_date("רביעי, 5 מאי 2027").unwrap();
    assert_eq!(d, Date { year: 2027, month: 5, day: 5 });
}

#[test]
fn parse_date_every_month() {
    let months = [
        "ינואר", "פברואר", "מרץ", "אפריל", "מאי", "יוני", "יולי", "אוגוסט", "ספטמבר",
        "אוקטובר", "נובמבר", "דצמבר",
    ];
    for (i, m) in months.iter().enumerate() {
        let d = parse_date(&format!("שבת, 1 {} 2024", m)).unwrap();
        assert_eq!(d.month as usize, i + 1);
    }
}

#[test]
fn parse_date_comma_segments() {
    assert_eq!(parse_date("5 מאי 2027"), Err(ParseError::InvalidDateFormat));
    assert_eq!(parse_date("א, ב, 5 מאי 2027"), Err(ParseError::InvalidDateFormat));
    assert_eq!(parse_date("רביעי, 5 מאי"), Err(ParseError::InvalidDateFormat));
    assert_eq!(parse_date("רביעי, 5 מאי 2027 עוד"), Err(ParseError::InvalidDateFormat));
}

#[test]
fn parse_date_bad_fields() {
    assert_eq!(parse_date("רביעי, חמש מאי 2027"), Err(ParseError::InvalidDay));
    assert_eq!(parse_date("רביעי, 5 סתם 2027"), Err(ParseError::InvalidMonth));
    assert_eq!(parse_date("רביעי, 5 מאי שנה"), Err(ParseError::InvalidYear));
    assert_eq!(parse_date("רביעי, 31 אפריל 2027"), Err(ParseError::InvalidDate));
    assert_eq!(parse_date("רביעי, 29 פברואר 2023"), Err(ParseError::InvalidDate));
    let leap = parse_date("רביעי, 29 פברואר 2024").unwrap();
    assert_eq!(leap, Date { year: 2024, month: 2, day: 29 });
}

#[test]
fn parse_time_with_prefix() {
    let t = parse_time("בשעה 20:30").unwrap();
    assert_eq!(t, Time { hour: 20, minute: 30, second: 0 });
}

#[test]
fn parse_time_plain_and_short() {
    assert_eq!(parse_time("20:30"), Ok(Time { hour: 20, minute: 30, second: 0 }));
    assert_eq!(parse_time("9:05"), Ok(Time { hour: 9, minute: 5, second: 0 }));
}

#[test]
fn parse_time_rejects_deviations() {
    assert_eq!(parse_time("25:99"), Err(ParseError::InvalidTimeFormat));
    assert_eq!(parse_time("24:00"), Err(ParseError::InvalidTimeFormat));
    assert_eq!(parse_time("20:60"), Err(ParseError::InvalidTimeFormat));
    assert_eq!(parse_time("20-30"), Err(ParseError::InvalidTimeFormat));
    assert_eq!(parse_time("20:30:00"), Err(ParseError::InvalidTimeFormat));
    assert_eq!(parse_time("20:30 "), Err(ParseError::InvalidTimeFormat));
    assert_eq!(parse_time(""), Err(ParseError::InvalidTimeFormat));
    assert_eq!(parse_time("123:45"), Err(ParseError::InvalidTimeFormat));
}

#[test]
fn registry_urls() {
    assert_eq!(
        get_url(Category::Comedy).unwrap(),
        "https://htma.smarticket.co.il/%D7%91%D7%99%D7%93%D7%95%D7%A8"
    );
    assert_eq!(
        get_url(Category::Music).unwrap(),
        "https://htma.smarticket.co.il/%D7%9E%D7%95%D7%A1%D7%99%D7%A7%D7%94"
    );
    assert_eq!(get_url(Category::Unassigned), Err(ConfigError::CategoryNotFound));
}

#[test]
fn default_show_is_sentinel() {
    let s = Show::default();
    assert_eq!(s.title, "");
    assert_eq!(s.date, Date { year: 1970, month: 1, day: 1 });
    assert_eq!(s.time, Time { hour: 0, minute: 0, second: 0 });
    assert_eq!(s.category, Category::Unassigned);
}

#[test]
fn show_display_line() {
    let s = show("Stand Up", 2027, 5, 5, 20, 30, Category::Comedy);
    assert_eq!(
        s.display_line(),
        "Title: Stand Up, Date: 2027-05-05, Time: 20:30:00, Category: Comedy"
    );
}

#[test]
fn diff_all_new_when_no_previous() {
    let a = show("A", 2025, 1, 1, 19, 0, Category::Comedy);
    let b = show("B", 2025, 1, 2, 20, 0, Category::Music);
    let current = vec![a.clone(), b.clone()];
    let new_shows = check_for_new_shows(vec![], &current).unwrap();
    assert_eq!(new_shows, vec![a, b]);
}

#[test]
fn diff_equal_lists_report_nothing() {
    let a = show("A", 2025, 1, 1, 19, 0, Category::Comedy);
    assert!(check_for_new_shows(vec![a.clone()], &vec![a]).is_none());
}

#[test]
fn diff_reports_only_the_added_show() {
    let a = show("A", 2025, 1, 1, 19, 0, Category::Comedy);
    let b = show("B", 2025, 1, 2, 20, 0, Category::Music);
    let new_shows = check_for_new_shows(vec![a.clone()], &vec![a, b.clone()]).unwrap();
    assert_eq!(new_shows, vec![b]);
}

#[test]
fn diff_never_reports_removed_shows() {
    let a = show("A", 2025, 1, 1, 19, 0, Category::Comedy);
    let b = show("B", 2025, 1, 2, 20, 0, Category::Music);
    assert!(check_for_new_shows(vec![a.clone(), b], &vec![a]).is_none());
}

#[test]
fn diff_distinguishes_every_field() {
    let a = show("A", 2025, 1, 1, 19, 0, Category::Comedy);
    let mut other_time = a.clone();
    other_time.time.minute = 30;
    let new_shows = check_for_new_shows(vec![a], &vec![other_time.clone()]).unwrap();
    assert_eq!(new_shows, vec![other_time]);
}

#[test]
fn shows_equal_compares_structurally() {
    let a = show("A", 2025, 1, 1, 19, 0, Category::Comedy);
    assert!(shows_equal(&vec![a.clone()], &vec![a.clone()]));
    assert!(!shows_equal(&vec![a.clone()], &vec![]));
    let mut b = a.clone();
    b.category = Category::Music;
    assert!(!shows_equal(&vec![a], &vec![b]));
}

#[test]
fn duplicate_copies_every_field() {
    let a = show("עותק", 2025, 7, 8, 21, 45, Category::Music);
    assert_eq!(a.duplicate(), a);
}

#[test]
fn shows_valid_rejects_out_of_range_fields() {
    let good = show("ok", 2025, 2, 28, 23, 59, Category::Comedy);
    assert!(shows_valid(&vec![good.clone()]));
    let mut bad_month = good.clone();
    bad_month.date.month = 13;
    assert!(!shows_valid(&vec![good.clone(), bad_month]));
    let mut bad_hour = good.clone();
    bad_hour.time.hour = 24;
    assert!(!shows_valid(&vec![bad_hour]));
}

#[test]
fn parse_error_descriptions() {
    assert_eq!(ParseError::MissingContainer.describe(), "missing listing container");
    assert_eq!(ParseError::InvalidDateFormat.describe(), "invalid date format");
    assert_eq!(ParseError::InvalidDay.describe(), "invalid day");
    assert_eq!(ParseError::InvalidMonth.describe(), "invalid month");
    assert_eq!(ParseError::InvalidYear.describe(), "invalid year");
    assert_eq!(ParseError::InvalidDate.describe(), "invalid date");
    assert_eq!(ParseError::InvalidTimeFormat.describe(), "invalid time format");
}

#[test]
fn sort_orders_by_date_then_time() {
    let mut v = vec![
        show("C", 2025, 3, 1, 10, 0, Category::Music),
        show("A", 2025, 1, 5, 23, 0, Category::Comedy),
        show("B", 2025, 1, 5, 9, 30, Category::Music),
    ];
    sort_shows(&mut v);
    assert_eq!(v[0].title, "B");
    assert_eq!(v[1].title, "A");
    assert_eq!(v[2].title, "C");
}

#[test]
fn sort_handles_empty_and_single() {
    let mut empty: Vec<Show> = vec![];
    sort_shows(&mut empty);
    assert!(empty.is_empty());
    let mut single = vec![show("A", 2025, 1, 1, 19, 0, Category::Comedy)];
    sort_shows(&mut single);
    assert_eq!(single.len(), 1);
}

#[test]
fn sort_is_stable_for_equal_keys() {
    // equal (date, time): the fetch order must survive, regardless of
    // which show has the lexicographically earlier title
    let zebra = show("zebra", 2025, 6, 1, 20, 0, Category::Comedy);
    let apple = show("apple", 2025, 6, 1, 20, 0, Category::Music);
    let mut v = vec![zebra.clone(), apple.clone()];
    sort_shows(&mut v);
    assert_eq!(v, vec![zebra, apple]);
}

fn listing_page(blocks: &str) -> String {
    format!(
        "<html><body><div class=\"category_shows\">{}</div></body></html>",
        blocks
    )
}

fn block(title: &str, date: Option<&str>, time: Option<&str>) -> String {
    let mut b = String::from("<div class=\"details-container\">");
    b.push_str(&format!("<h2>{}</h2>", title));
    if let Some(d) = date {
        b.push_str(&format!("<div class=\"date_container\">{}</div>", d));
    }
    if let Some(t) = time {
        b.push_str(&format!("<div class=\"time_container\">{}</div>", t));
    }
    b.push_str("</div>");
    b
}

#[test]
fn extraction_reads_title_date_and_time() {
    let html = listing_page(&block("Stand Up", Some("רביעי, 5 מאי 2027"), Some("בשעה 20:30")));
    let shows = get_shows_by_category(&html, Category::Comedy).unwrap();
    assert_eq!(shows.len(), 1);
    assert_eq!(shows[0].title, "Stand Up");
    assert_eq!(shows[0].date, Date { year: 2027, month: 5, day: 5 });
    assert_eq!(shows[0].time, Time { hour: 20, minute: 30, second: 0 });
    assert_eq!(shows[0].category, Category::Comedy);
}

#[test]
fn extraction_missing_subnodes_fall_back_to_defaults() {
    let html = listing_page(&block("Quiet", None, None));
    let shows = get_shows_by_category(&html, Category::Music).unwrap();
    assert_eq!(shows.len(), 1);
    assert_eq!(shows[0].title, "Quiet");
    assert_eq!(shows[0].date, Date { year: 1970, month: 1, day: 1 });
    assert_eq!(shows[0].time, Time { hour: 0, minute: 0, second: 0 });
    assert_eq!(shows[0].category, Category::Music);
}

#[test]
fn extraction_trims_node_text() {
    let html = listing_page(&block(
        "  Spaced Out  ",
        Some("  רביעי, 5 מאי 2027  "),
        Some("  בשעה 20:30  "),
    ));
    let shows = get_shows_by_category(&html, Category::Comedy).unwrap();
    assert_eq!(shows[0].title, "Spaced Out");
    assert_eq!(shows[0].date, Date { year: 2027, month: 5, day: 5 });
    assert_eq!(shows[0].time, Time { hour: 20, minute: 30, second: 0 });
}

#[test]
fn extraction_missing_title_is_empty() {
    let html = "<html><body><div class=\"category_shows\">\
        <div class=\"details-container\">\
        <div class=\"date_container\">רביעי, 5 מאי 2027</div>\
        </div></div></body></html>";
    let shows = get_shows_by_category(html, Category::Comedy).unwrap();
    assert_eq!(shows.len(), 1);
    assert_eq!(shows[0].title, "");
    assert_eq!(shows[0].date, Date { year: 2027, month: 5, day: 5 });
    assert_eq!(shows[0].time, Time { hour: 0, minute: 0, second: 0 });
}

#[test]
fn extraction_missing_container_fails() {
    let html = "<html><body><div class=\"something_else\"></div></body></html>";
    assert_eq!(
        get_shows_by_category(html, Category::Comedy),
        Err(ParseError::MissingContainer)
    );
}

#[test]
fn extraction_malformed_present_date_fails() {
    let html = listing_page(&block("Bad", Some("no comma here"), None));
    assert_eq!(
        get_shows_by_category(&html, Category::Comedy),
        Err(ParseError::InvalidDateFormat)
    );
}

#[test]
fn extraction_malformed_present_time_fails() {
    let html = listing_page(&block("Bad", Some("רביעי, 5 מאי 2027"), Some("בשעה 25:99")));
    assert_eq!(
        get_shows_by_category(&html, Category::Comedy),
        Err(ParseError::InvalidTimeFormat)
    );
}

#[test]
fn extraction_keeps_document_order() {
    let blocks = format!(
        "{}{}",
        block("First", Some("רביעי, 5 מאי 2027"), Some("בשעה 20:30")),
        block("Second", Some("חמישי, 6 מאי 2027"), Some("בשעה 21:00"))
    );
    let html = listing_page(&blocks);
    let shows = get_shows_by_category(&html, Category::Comedy).unwrap();
    assert_eq!(shows.len(), 2);
    assert_eq!(shows[0].title, "First");
    assert_eq!(shows[1].title, "Second");
}

#[test]
fn aggregation_concatenates_and_sorts() {
    let comedy = listing_page(&block("Late", Some("שני, 2 יוני 2025"), Some("בשעה 21:00")));
    let music = listing_page(&block("Early", Some("ראשון, 1 יוני 2025"), Some("בשעה 19:00")));
    let shows = get_shows(&comedy, &music).unwrap();
    assert_eq!(shows.len(), 2);
    assert_eq!(shows[0].title, "Early");
    assert_eq!(shows[0].category, Category::Music);
    assert_eq!(shows[1].title, "Late");
    assert_eq!(shows[1].category, Category::Comedy);
}

#[test]
fn aggregation_keeps_comedy_before_music_on_ties() {
    let comedy = listing_page(&block("zzz", Some("ראשון, 1 יוני 2025"), Some("בשעה 19:00")));
    let music = listing_page(&block("aaa", Some("ראשון, 1 יוני 2025"), Some("בשעה 19:00")));
    let shows = get_shows(&comedy, &music).unwrap();
    assert_eq!(shows.len(), 2);
    assert_eq!(shows[0].title, "zzz");
    assert_eq!(shows[0].category, Category::Comedy);
    assert_eq!(shows[1].title, "aaa");
    assert_eq!(shows[1].category, Category::Music);
}

#[test]
fn aggregation_fails_when_a_category_fails() {
    let comedy = listing_page(&block("Fine", Some("ראשון, 1 יוני 2025"), Some("בשעה 19:00")));
    let music = "<html><body></body></html>";
    assert_eq!(get_shows(&comedy, music), Err(ParseError::MissingContainer));
}

#[test]
fn snapshot_exact_text() {
    let v = vec![show("A", 2025, 1, 1, 19, 0, Category::Comedy)];
    let json = save_snapshot(&v);
    assert_eq!(
        json,
        "[{\"title\":\"A\",\"date\":\"2025-01-01\",\"time\":\"19:00:00\",\"category\":\"Comedy\"}]"
    );
}

#[test]
fn snapshot_round_trip() {
    let v = vec![
        show("הצגה עם \"מרכאות\" ו-\\לוכסן", 2025, 12, 31, 23, 59, Category::Comedy),
        show("", 1970, 1, 1, 0, 0, Category::Unassigned),
        show("a,b}c[d]{e", 2024, 2, 29, 0, 0, Category::Comedy),
        show("Music night", 2026, 2, 28, 20, 15, Category::Music),
    ];
    let json = save_snapshot(&v);
    let back = load_snapshot(&json).unwrap();
    assert_eq!(back, v);
}

#[test]
fn snapshot_round_trip_empty() {
    let json = save_snapshot(&vec![]);
    assert_eq!(json, "[]");
    assert_eq!(load_snapshot(&json), Some(vec![]));
}

#[test]
fn snapshot_rejects_malformed_text() {
    assert_eq!(load_snapshot(""), None);
    assert_eq!(load_snapshot("not json"), None);
    assert_eq!(load_snapshot("["), None);
    assert_eq!(load_snapshot("[{\"title\":\"A\"}]"), None);
    assert_eq!(
        load_snapshot(
            "[{\"title\":\"A\",\"date\":\"2025-13-01\",\"time\":\"19:00:00\",\"category\":\"Comedy\"}]"
        ),
        None
    );
}

#[test]
fn notification_message_lines() {
    let v = vec![
        show("A", 2025, 1, 1, 19, 0, Category::Comedy),
        show("B", 2025, 1, 2, 20, 0, Category::Music),
    ];
    let msg = format_notification(&v);
    assert_eq!(
        msg,
        "*הופעות חדשות*:\nA -> 2025-01-01 (19:00:00)\nB -> 2025-01-02 (20:00:00)"
    );
}

#[test]
fn end_to_end_new_show_detected() {
    // previous snapshot holds A; the current pages yield A and B
    let prev = vec![show("A", 2025, 1, 1, 19, 0, Category::Comedy)];
    let prev_json = save_snapshot(&prev);
    let loaded_prev = load_snapshot(&prev_json).unwrap();

    let comedy = listing_page(&block("A", Some("רביעי, 1 ינואר 2025"), Some("בשעה 19:00")));
    let music = listing_page(&block("B", Some("חמישי, 2 ינואר 2025"), Some("בשעה 20:00")));
    let current = get_shows(&comedy, &music).unwrap();
    assert_eq!(current.len(), 2);

    let new_shows = check_for_new_shows(loaded_prev, &current).unwrap();
    assert_eq!(new_shows.len(), 1);
    assert_eq!(new_shows[0].title, "B");

    let msg = format_notification(&new_shows);
    assert!(msg.contains("B -> 2025-01-02 (20:00:00)"));

    let saved = save_snapshot(&current);
    let reloaded = load_snapshot(&saved).unwrap();
    assert_eq!(reloaded, current);
}

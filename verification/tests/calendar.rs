use chrono::Datelike;
use koshelf::calendar::generate_calendar_events_for_days;
use koshelf::sessions::StatisticsCalculator;
use koshelf::stats_types::{PageStat, StatBook, StatisticsData};

fn book(id: i64, md5: &str, title: &str, authors: &str) -> StatBook {
    StatBook {
        id,
        title: title.to_string(),
        authors: authors.to_string(),
        notes: None,
        last_open: None,
        highlights: None,
        pages: None,
        md5: md5.to_string(),
        content_type: None,
        total_read_time: None,
        total_read_pages: None,
        completions: None,
    }
}

fn read(id_book: i64, start_time: i64, duration: i64) -> PageStat {
    PageStat { id_book, page: 1, start_time, duration }
}

fn day(y: i32, m: u32, d: u32) -> i32 {
    chrono::NaiveDate::from_ymd_opt(y, m, d).unwrap().num_days_from_ce()
}

#[test]
fn calendar_events_are_runs_of_days() {
    let data = StatisticsData {
        books: vec![book(1, "m1", "One", "A; B, "), book(2, "m2", "Two", "")],
        page_stats: vec![
            read(1, 100, 10),
            read(2, 150, 0),
            read(1, 200, 20),
            read(2, 250, 30),
            read(1, 300, 5),
            read(3, 350, 9),
            read(1, 400, 7),
            read(2, 450, 40),
        ],
        stats_by_md5: Vec::new(),
    };
    let d = day(2024, 1, 1);
    let days = vec![Some(d), Some(d), Some(d + 1), Some(d + 1), Some(d + 1), Some(d), Some(d + 3), None];
    let library = vec![("m1".to_string(), "old".to_string()), ("m1".to_string(), "id1".to_string())];
    let cal = generate_calendar_events_for_days(&data, &library, &days);
    let got: Vec<(&str, Option<&str>, i64, i64, &str)> = cal
        .events
        .iter()
        .map(|e| (e.start.as_str(), e.end.as_deref(), e.total_read_time, e.total_pages_read, e.book_id.as_str()))
        .collect();
    assert_eq!(
        got,
        vec![
            ("2024-01-01", Some("2024-01-03"), 35, 3, "m1"),
            ("2024-01-02", None, 30, 1, "m2"),
            ("2024-01-04", None, 7, 1, "m1"),
        ]
    );
    assert_eq!(cal.books.len(), 2);
    assert_eq!(cal.books[0].0, "m1");
    assert_eq!(cal.books[0].1.authors, vec!["A".to_string(), "B".to_string()]);
    assert_eq!(cal.books[0].1.book_path, Some("/books/id1/".to_string()));
    assert_eq!(cal.books[0].1.book_cover, Some("/assets/covers/id1.webp".to_string()));
    assert_eq!(cal.books[1].0, "m2");
    assert!(cal.books[1].1.authors.is_empty());
    assert_eq!(cal.books[1].1.book_path, None);
}

#[test]
fn calendar_from_local_dates() {
    let noon = 1_704_110_400; // 2024-01-01T12:00:00Z
    let data = StatisticsData {
        books: vec![book(7, "x", "Seven", "Someone")],
        page_stats: vec![read(7, noon, 60), read(7, noon + 86_400, 40), read(7, noon + 60, 0)],
        stats_by_md5: Vec::new(),
    };
    let cal = StatisticsCalculator::generate_calendar_events(&data, &Vec::new()).unwrap();
    assert_eq!(cal.events.len(), 1);
    assert!(cal.events[0].end.is_some());
    assert_eq!(cal.events[0].total_read_time, 100);
    assert_eq!(cal.events[0].total_pages_read, 2);
    assert_eq!(cal.books[0].1.title, "Seven");
}

#[test]
fn calendar_of_nothing_is_empty() {
    let data = StatisticsData { books: Vec::new(), page_stats: vec![read(1, 0, 5)], stats_by_md5: Vec::new() };
    let cal = StatisticsCalculator::generate_calendar_events(&data, &Vec::new()).unwrap();
    assert!(cal.events.is_empty() && cal.books.is_empty());
}

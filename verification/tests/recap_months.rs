use koshelf::recap_months::{build_monthly_recaps, group_completions_by_year_month, sort_newest_first, RecapItem, RecapSource};
use koshelf::stats_types::{BookCompletions, ContentType, ReadCompletion, StatBook, StatisticsData};

fn completion(end: &str) -> ReadCompletion {
    ReadCompletion::new("2020-01-01".to_string(), end.to_string(), 60, 2, 10)
}

fn stat_book(id: i64, md5: &str, title: &str, authors: &str, ct: Option<ContentType>, ends: &[&str]) -> StatBook {
    StatBook {
        id,
        title: title.to_string(),
        authors: authors.to_string(),
        notes: None,
        last_open: None,
        highlights: None,
        pages: None,
        md5: md5.to_string(),
        content_type: ct,
        total_read_time: None,
        total_read_pages: None,
        completions: Some(BookCompletions::new(ends.iter().map(|e| completion(e)).collect())),
    }
}

fn source(md5: &str, id: &str, rating: Option<u32>) -> RecapSource {
    RecapSource {
        md5: md5.to_string(),
        id: id.to_string(),
        title: format!("Library {}", id),
        authors: vec!["Author".to_string()],
        rating,
        review_note: Some("Good".to_string()),
        series_display: None,
        content_type: ContentType::Comic,
    }
}

fn data() -> StatisticsData {
    StatisticsData {
        books: vec![
            stat_book(1, "aaa", "Stat A", "X, Y ,", Some(ContentType::Book), &["2024-03-05", "2023-12-31", "bad"]),
            stat_book(2, "bbb", "Stat B", "", None, &["2024-03-20", "2024-01-02"]),
        ],
        page_stats: Vec::new(),
        stats_by_md5: Vec::new(),
    }
}

#[test]
fn completions_are_grouped_by_year_and_month() {
    let sources = vec![source("bbb", "old", None), source("bbb", "b1", Some(3))];
    let groups = group_completions_by_year_month(&data(), &sources);
    let years: Vec<i32> = groups.iter().map(|g| g.0).collect();
    assert_eq!(years, vec![2024, 2023]);
    let months: Vec<&str> = groups[0].1.iter().map(|m| m.0.as_str()).collect();
    assert_eq!(months, vec!["2024-01", "2024-03"]);
    let march: Vec<&str> = groups[0].1[1].1.iter().map(|i| i.title.as_str()).collect();
    assert_eq!(march, vec!["Stat A", "Library b1"]);
    let a = &groups[0].1[1].1[0];
    assert_eq!(a.authors, vec!["X".to_string(), "Y".to_string()]);
    assert_eq!(a.content_type, Some(ContentType::Book));
    assert_eq!(a.item_cover, None);
    assert_eq!(a.star_display, [false; 5]);
    let b = &groups[0].1[1].1[1];
    assert_eq!(b.item_id, Some("b1".to_string()));
    assert_eq!(b.item_cover, Some("/assets/covers/b1.webp".to_string()));
    assert_eq!(b.star_display, [true, true, true, false, false]);
    assert_eq!(b.review_note, Some("Good".to_string()));
    assert_eq!(b.content_type, Some(ContentType::Comic));
    assert_eq!(groups[1].1.len(), 1);
    assert_eq!(groups[1].1[0].0, "2023-12");
}

#[test]
fn monthly_recaps_sort_and_split_by_type() {
    let sources = vec![source("bbb", "b1", Some(7))];
    let groups = group_completions_by_year_month(&data(), &sources);
    assert_eq!(groups[0].1[1].1[1].star_display, [true; 5]);
    let all_hours = vec![("2024-03".to_string(), 100)];
    let comic_hours = vec![("2024-01".to_string(), 5), ("2024-01".to_string(), 9)];
    let r = build_monthly_recaps(&groups[0].1, &all_hours, &Vec::new(), &comic_hours);
    assert_eq!(r.all.len(), 2);
    assert_eq!(r.all[0].month_key, "2024-01");
    assert_eq!(r.all[0].month_label, "January");
    assert_eq!(r.all[0].hours_read_seconds, 0);
    assert_eq!(r.all[1].month_label, "March");
    assert_eq!(r.all[1].books_finished, 2);
    assert_eq!(r.all[1].hours_read_seconds, 100);
    let march: Vec<&str> = r.all[1].items.iter().map(|i| i.end_date.as_str()).collect();
    assert_eq!(march, vec!["2024-03-20", "2024-03-05"]);
    assert_eq!(r.books.len(), 1);
    assert_eq!(r.books[0].month_key, "2024-03");
    assert_eq!(r.books[0].items[0].title, "Stat A");
    assert_eq!(r.comics.len(), 2);
    assert_eq!(r.comics[0].hours_read_seconds, 5);
    assert_eq!(r.comics[1].books_finished, 1);
}

#[test]
fn month_without_a_date_keeps_its_key_as_label() {
    let item = |end: &str| RecapItem {
        title: end.to_string(),
        authors: Vec::new(),
        start_date: String::new(),
        end_date: end.to_string(),
        reading_time: 0,
        session_count: 0,
        pages_read: 0,
        rating: None,
        review_note: None,
        series_display: None,
        item_id: None,
        item_cover: None,
        content_type: None,
        star_display: [false; 5],
    };
    let months = vec![("2024-13".to_string(), vec![item("b")]), ("2024-14".to_string(), Vec::new())];
    let r = build_monthly_recaps(&months, &Vec::new(), &Vec::new(), &Vec::new());
    assert_eq!(r.all.len(), 1);
    assert_eq!(r.all[0].month_label, "2024-13");
    assert!(r.books.is_empty() && r.comics.is_empty());
}

#[test]
fn sorting_is_newest_first_and_stable() {
    let item = |title: &str, end: &str| RecapItem {
        title: title.to_string(),
        authors: Vec::new(),
        start_date: String::new(),
        end_date: end.to_string(),
        reading_time: 0,
        session_count: 0,
        pages_read: 0,
        rating: None,
        review_note: None,
        series_display: None,
        item_id: None,
        item_cover: None,
        content_type: None,
        star_display: [false; 5],
    };
    let items = vec![item("a", "2024-01-02"), item("b", "2024-01-05"), item("c", "2024-01-02"), item("d", "2024-01-09")];
    let sorted = sort_newest_first(&items);
    let titles: Vec<&str> = sorted.iter().map(|i| i.title.as_str()).collect();
    assert_eq!(titles, vec!["d", "b", "a", "c"]);
}

use koshelf::dedup::StatisticsParser;
use koshelf::sessions::StatisticsCalculator;
use koshelf::stats_calc::{last_read_text, StatDay};
use chrono::Datelike;
use koshelf::stats_types::{
    BookCompletions, ContentType, DailyStats, PageStat, ReadCompletion, StatBook, StatisticsData,
};

fn read(id_book: i64, start_time: i64, duration: i64) -> PageStat {
    PageStat { id_book, page: 1, start_time, duration }
}

fn book(id: i64, md5: &str, last_open: i64, read_time: i64, read_pages: i64, authors: &str) -> StatBook {
    StatBook {
        id,
        title: "Shared Book".to_string(),
        authors: authors.to_string(),
        notes: Some(0),
        last_open: Some(last_open),
        highlights: Some(0),
        pages: Some(300),
        md5: md5.to_string(),
        content_type: None,
        total_read_time: Some(read_time),
        total_read_pages: Some(read_pages),
        completions: None,
    }
}

fn day(date: &str, read_time: i64, pages_read: i64) -> DailyStats {
    DailyStats { date: date.to_string(), read_time, pages_read }
}

#[test]
fn statistics_parser_deduplicates_by_md5() {
    let mut books = vec![
        book(1, "shared-md5", 100, 5000, 80, "Original Author"),
        book(2, "shared-md5", 200, 100, 2, "Updated Author\nTranslator"),
    ];
    let mut page_stats = vec![read(1, 1000, 60), read(1, 1060, 60), read(2, 2000, 30)];
    StatisticsParser::deduplicate_by_md5(&mut books, &mut page_stats);
    assert_eq!(books.len(), 1);
    assert_eq!(books[0].id, 2);
    assert_eq!(books[0].authors, "Updated Author\nTranslator");
    assert_eq!(books[0].total_read_time, Some(5100));
    assert_eq!(books[0].total_read_pages, Some(82));
    assert_eq!(page_stats.len(), 3);
    assert!(page_stats.iter().all(|p| p.id_book == 2));
}

#[test]
fn distinct_md5s_are_kept() {
    let mut books = vec![book(1, "a", 1, 10, 1, ""), book(2, "b", 1, 20, 2, "")];
    let mut page_stats = vec![read(1, 0, 5)];
    StatisticsParser::deduplicate_by_md5(&mut books, &mut page_stats);
    assert_eq!(books.len(), 2);
    assert_eq!(page_stats[0].id_book, 1);
}

#[test]
fn sessions_split_on_gaps_over_thirty_seconds() {
    // book 1: 0..60, 70..130 (gap 10) -> one session of 120; 200..260 (gap 70) -> 60
    let stats = vec![read(1, 200, 60), read(1, 0, 60), read(1, 70, 60), read(2, 0, 0)];
    assert_eq!(StatisticsCalculator::calculate_overall_sessions(&stats), (Some(90), Some(120)));
    assert_eq!(StatisticsCalculator::calculate_weekly_sessions(&vec![]), (None, None));
}

#[test]
fn authors_split_on_commas_and_semicolons() {
    assert_eq!(
        StatisticsCalculator::parse_authors("A. Author, B. Writer; ;C"),
        vec!["A. Author".to_string(), "B. Writer".to_string(), "C".to_string()]
    );
    assert!(StatisticsCalculator::parse_authors("").is_empty());
}

#[test]
fn daily_activity_is_sorted_by_date() {
    let days = StatisticsCalculator::build_daily_activity(
        vec![("2023-01-02".to_string(), 50), ("2023-01-01".to_string(), 10)],
        vec![("2023-01-01".to_string(), 3)],
    );
    assert_eq!(days.len(), 2);
    assert_eq!(days[0].date, "2023-01-01");
    assert_eq!(days[0].pages_read, 3);
    assert_eq!(days[1].date, "2023-01-02");
    assert_eq!(days[1].read_time, 50);
    assert_eq!(days[1].pages_read, 0);
}

#[test]
fn streaks_as_of_a_given_day() {
    let daily = vec![
        day("2023-01-01", 10, 1),
        day("2023-01-02", 10, 1),
        day("2023-01-03", 10, 1),
        day("2023-01-10", 10, 1),
        day("2023-01-11", 10, 1),
    ];
    // day number of 2023-01-11 in chrono's count from the common era
    let jan_11 = 738531;
    let (longest, current) = StatisticsCalculator::calculate_streaks_at(&daily, jan_11);
    assert_eq!(longest.days, 3);
    assert_eq!(longest.start_date.as_deref(), Some("2023-01-01"));
    assert_eq!(longest.end_date.as_deref(), Some("2023-01-03"));
    assert_eq!(current.days, 2);
    assert_eq!(current.start_date.as_deref(), Some("2023-01-10"));
    let (_, stale) = StatisticsCalculator::calculate_streaks_at(&daily, jan_11 + 5);
    assert_eq!(stale.days, 0);
}

#[test]
fn completion_figures() {
    let c = ReadCompletion::new("2023-01-01".to_string(), "2023-01-05".to_string(), 3600, 4, 100);
    assert_eq!(c.avg_session_duration(), Some(900));
    assert_eq!(c.calendar_length_days(), Some(5));
    let none = ReadCompletion::new("x".to_string(), "y".to_string(), 10, 0, 1);
    assert_eq!(none.avg_session_duration(), None);
    assert_eq!(none.calendar_length_days(), None);
    let all = BookCompletions::new(vec![c]);
    assert!(all.has_completions());
    assert_eq!(all.total_completions, 1);
    assert_eq!(all.last_completion_date.as_deref(), Some("2023-01-05"));
    assert!(!BookCompletions::new(vec![]).has_completions());
}

#[test]
fn content_type_tagging_and_filtering() {
    let mut data = StatisticsData {
        books: vec![book(1, "m1", 1, 10, 1, ""), book(2, "m2", 1, 10, 1, "")],
        page_stats: vec![read(1, 0, 5), read(2, 0, 5), read(2, 10, 5)],
        stats_by_md5: vec![],
    };
    data.tag_content_types(&vec![("m2".to_string(), ContentType::Comic)]);
    assert_eq!(data.books[0].content_type, None);
    assert_eq!(data.books[1].content_type, Some(ContentType::Comic));
    let comics = data.filtered_by_content_type(ContentType::Comic);
    assert_eq!(comics.books.len(), 1);
    assert_eq!(comics.page_stats.len(), 2);
    assert_eq!(comics.stats_by_md5.len(), 1);
    assert_eq!(comics.stats_by_md5[0].0, "m2");
}

#[test]
fn filtering_by_content_type_twice_changes_nothing() {
    let mut data = StatisticsData {
        books: vec![book(1, "m1", 1, 10, 1, ""), book(2, "m2", 1, 10, 1, ""), book(3, "m3", 1, 10, 1, "")],
        page_stats: vec![read(1, 0, 5), read(2, 0, 5), read(3, 10, 5), read(2, 20, 5)],
        stats_by_md5: vec![],
    };
    data.tag_content_types(&vec![("m2".to_string(), ContentType::Comic), ("m3".to_string(), ContentType::Comic)]);
    let once = data.filtered_by_content_type(ContentType::Comic);
    let twice = once.filtered_by_content_type(ContentType::Comic);
    let ids = |d: &StatisticsData| d.books.iter().map(|b| b.id).collect::<Vec<_>>();
    let reads = |d: &StatisticsData| d.page_stats.iter().map(|p| (p.id_book, p.start_time)).collect::<Vec<_>>();
    assert_eq!(ids(&once), vec![2, 3]);
    assert_eq!(ids(&twice), ids(&once));
    assert_eq!(reads(&twice), reads(&once));
    assert_eq!(reads(&once), vec![(2, 0), (3, 10), (2, 20)]);
}

#[test]
fn hidden_flow_pages_are_subtracted() {
    let mut data = StatisticsData {
        books: vec![book(1, "m1", 1, 10, 1, "")],
        page_stats: vec![],
        stats_by_md5: vec![],
    };
    data.apply_hidden_flow_adjustments(&vec![("m1".to_string(), 100)]);
    assert_eq!(data.books[0].pages, Some(200));
}

fn stat_day(date: &str, year: i32, iso_week: u32) -> StatDay {
    StatDay { date: date.to_string(), year, iso_week }
}

fn sample_reads() -> (StatisticsData, Vec<StatDay>) {
    let mut done = book(1, "m1", 1, 10, 1, "");
    done.completions = Some(BookCompletions::new(vec![
        ReadCompletion::new("2024-01-01".to_string(), "2024-01-05".to_string(), 100, 1, 10),
        ReadCompletion::new("2024-02-01".to_string(), "2024-02-05".to_string(), 100, 1, 10),
    ]));
    let mut once = book(2, "m2", 1, 10, 1, "");
    once.completions = Some(BookCompletions::new(vec![ReadCompletion::new(
        "2024-03-01".to_string(),
        "2024-03-02".to_string(),
        100,
        1,
        10,
    )]));
    let data = StatisticsData {
        books: vec![done, once, book(3, "m3", 1, 10, 1, "")],
        page_stats: vec![
            read(1, 1000, 60),
            read(1, 1070, 30),
            read(2, 5000, 0),
            read(2, 90000, 120),
            read(1, 700000, 45),
        ],
        stats_by_md5: vec![],
    };
    let days = vec![
        stat_day("2024-03-04", 2024, 10),
        stat_day("2024-03-04", 2024, 10),
        stat_day("2024-03-04", 2024, 10),
        stat_day("2024-03-05", 2024, 10),
        stat_day("2024-03-12", 2024, 11),
    ];
    (data, days)
}

#[test]
fn overall_statistics_for_given_days() {
    let (data, days) = sample_reads();
    let today = chrono::NaiveDate::from_ymd_opt(2024, 3, 13).unwrap().num_days_from_ce();
    let stats = StatisticsCalculator::calculate_stats_for_days(&data, &days, today);
    assert_eq!(stats.total_read_time, 255);
    assert_eq!(stats.total_page_reads, 4);
    assert_eq!(stats.longest_read_time_in_day, 120);
    assert_eq!(stats.most_pages_in_day, 2);
    assert_eq!(stats.average_session_duration, Some(85));
    assert_eq!(stats.longest_session_duration, Some(120));
    assert_eq!(stats.total_completions, 3);
    assert_eq!(stats.books_completed, 2);
    assert_eq!(stats.most_completions, 2);

    assert_eq!(stats.weeks.len(), 2);
    assert_eq!(stats.weeks[0].start_date, "2024-03-11");
    assert_eq!(stats.weeks[0].end_date, "2024-03-17");
    assert_eq!(stats.weeks[0].read_time, 45);
    assert_eq!(stats.weeks[0].pages_read, 1);
    assert_eq!(stats.weeks[0].longest_session_duration, Some(45));
    assert_eq!(stats.weeks[1].start_date, "2024-03-04");
    assert_eq!(stats.weeks[1].end_date, "2024-03-10");
    assert_eq!(stats.weeks[1].read_time, 210);
    assert_eq!(stats.weeks[1].pages_read, 3);
    assert_eq!(stats.weeks[1].average_session_duration, Some(105));
    assert_eq!(stats.weeks[1].longest_session_duration, Some(120));

    let dates: Vec<(&str, i64, i64)> = stats
        .daily_activity
        .iter()
        .map(|d| (d.date.as_str(), d.read_time, d.pages_read))
        .collect();
    assert_eq!(dates, vec![("2024-03-04", 90, 2), ("2024-03-05", 120, 1), ("2024-03-12", 45, 1)]);

    assert_eq!(stats.longest_streak.days, 2);
    assert_eq!(stats.longest_streak.start_date.as_deref(), Some("2024-03-04"));
    assert_eq!(stats.longest_streak.end_date.as_deref(), Some("2024-03-05"));
    assert_eq!(stats.current_streak.days, 1);
    assert_eq!(stats.current_streak.start_date.as_deref(), Some("2024-03-12"));
    assert_eq!(stats.current_streak.end_date, None);
}

#[test]
fn statistics_of_no_reads_are_empty() {
    let data = StatisticsData { books: vec![], page_stats: vec![read(1, 10, 0)], stats_by_md5: vec![] };
    let days = vec![stat_day("2024-01-01", 2024, 1)];
    let stats = StatisticsCalculator::calculate_stats_for_days(&data, &days, 0);
    assert_eq!(stats.total_read_time, 0);
    assert_eq!(stats.total_page_reads, 0);
    assert_eq!(stats.longest_read_time_in_day, 0);
    assert_eq!(stats.most_pages_in_day, 0);
    assert_eq!(stats.average_session_duration, None);
    assert!(stats.weeks.is_empty());
    assert!(stats.daily_activity.is_empty());
    assert_eq!(stats.longest_streak.days, 0);
    assert_eq!(stats.current_streak.days, 0);
}

#[test]
fn statistics_in_local_time_keep_the_totals() {
    let (data, _) = sample_reads();
    let stats = StatisticsCalculator::calculate_stats(&data).expect("timestamps near the epoch");
    assert_eq!(stats.total_read_time, 255);
    assert_eq!(stats.total_page_reads, 4);
    assert_eq!(stats.average_session_duration, Some(85));
    let days: i64 = stats.daily_activity.iter().map(|d| d.pages_read).sum();
    assert_eq!(days, 4);
}

#[test]
fn session_total_equals_reading_time() {
    let (data, _) = sample_reads();
    let stats = StatisticsCalculator::calculate_overall_sessions(&data.page_stats);
    // three sessions (90, 45 and 120 seconds) cover the 255 seconds read
    assert_eq!(stats, (Some(85), Some(120)));
}

#[test]
fn book_session_stats_group_the_books_reads() {
    let (data, _) = sample_reads();
    let stats = data.books[0].calculate_session_stats(&data.page_stats);
    assert_eq!(stats.session_count, 2);
    assert_eq!(stats.average_session_duration, Some(67));
    assert_eq!(stats.longest_session_duration, Some(90));
    assert!(stats.last_read_date.is_some());
    let unread = data.books[2].calculate_session_stats(&data.page_stats);
    assert_eq!(unread.session_count, 0);
    assert_eq!(unread.average_session_duration, None);
    assert_eq!(unread.longest_session_duration, None);
    assert_eq!(unread.last_read_date, None);
}

#[test]
fn last_read_label_drops_the_current_year() {
    let labels = Some((2024, "Mar 04".to_string(), "Mar 04 2024".to_string()));
    assert_eq!(last_read_text(labels.clone(), 2024).as_deref(), Some("Mar 04"));
    assert_eq!(last_read_text(labels, 2025).as_deref(), Some("Mar 04 2024"));
    assert_eq!(last_read_text(None, 2025), None);
}

use koshelf::recap::{completion_year_and_month, compute_yearly_summary, month_hours_for, MonthTotals};
use koshelf::stats_types::{DailyStats, PageStat, ReadingStats, StreakInfo};

fn day(date: &str, read_time: i64) -> DailyStats {
    DailyStats { date: date.to_string(), read_time, pages_read: 1 }
}

fn stats(daily: Vec<DailyStats>) -> ReadingStats {
    ReadingStats {
        total_read_time: 0,
        total_page_reads: 0,
        longest_read_time_in_day: 0,
        most_pages_in_day: 0,
        average_session_duration: None,
        longest_session_duration: None,
        total_completions: 0,
        books_completed: 0,
        most_completions: 0,
        longest_streak: StreakInfo::new(0, None, None),
        current_streak: StreakInfo::new(0, None, None),
        weeks: Vec::new(),
        daily_activity: daily,
    }
}

fn read(id_book: i64, start_time: i64, duration: i64) -> PageStat {
    PageStat { id_book, page: 1, start_time, duration }
}

// 2023-06-01T00:00:00Z and 2022-06-01T00:00:00Z
const JUNE_2023: i64 = 1_685_577_600;
const JUNE_2022: i64 = 1_654_041_600;

fn sample_page_stats() -> Vec<PageStat> {
    vec![
        read(1, JUNE_2023, 600),
        read(1, JUNE_2023 + 600, 300),
        read(1, JUNE_2023 + 30_000, 1200),
        read(2, JUNE_2023, 100),
        read(1, JUNE_2022, 500),
    ]
}

#[test]
fn yearly_summary_adds_up_the_year() {
    let monthly = vec![
        MonthTotals { books_finished: 2, hours_read_seconds: 3600 * 30 },
        MonthTotals { books_finished: 1, hours_read_seconds: 7200 },
    ];
    let month_hours = vec![
        ("2023-05".to_string(), 100),
        ("2023-06".to_string(), 300),
        ("2022-06".to_string(), 1000),
    ];
    let reading = stats(vec![
        day("2023-06-01", 100),
        day("2023-06-02", 50),
        day("2023-06-04", 10),
        day("2023-06-05", 0),
        day("2022-12-31", 5),
    ]);
    let s = compute_yearly_summary(2023, &monthly, &month_hours, &reading, &sample_page_stats(), None);
    assert_eq!(s.total_books, 3);
    assert_eq!(s.total_time_seconds, 115_200);
    assert_eq!(s.total_time_days, 1);
    assert_eq!(s.total_time_hours, 8);
    assert_eq!(s.longest_session_hours, 0);
    assert_eq!(s.longest_session_minutes, 20);
    assert_eq!(s.average_session_hours, 0);
    assert_eq!(s.average_session_minutes, 12);
    assert_eq!(s.active_days, 3);
    assert_eq!(s.active_days_percentage, (3.0f64 / 365.0 * 100.0).round() as u128);
    assert_eq!(s.best_month_time_display, None);
    assert_eq!(s.days_in_year, 365);
    assert_eq!(s.longest_streak, 2);
    assert_eq!(s.best_month_name.as_deref(), Some("June"));
}

#[test]
fn yearly_summary_filters_by_book_ids() {
    let reading = stats(vec![]);
    let ids = vec![2i64];
    let s = compute_yearly_summary(2023, &vec![], &vec![], &reading, &sample_page_stats(), Some(&ids));
    assert_eq!(s.longest_session_minutes, 1);
    assert_eq!(s.average_session_minutes, 1);
    assert_eq!(s.total_books, 0);
    assert_eq!(s.longest_streak, 0);
    assert_eq!(s.best_month_name, None);
}

#[test]
fn yearly_summary_of_a_leap_year_without_sessions() {
    let reading = stats(vec![day("2024-02-29", 60)]);
    let s = compute_yearly_summary(2024, &vec![], &vec![("2024-02".to_string(), 0)], &reading, &vec![], None);
    assert_eq!(s.days_in_year, 366);
    assert_eq!(s.longest_session_hours, 0);
    assert_eq!(s.average_session_minutes, 0);
    assert_eq!(s.active_days, 1);
    assert_eq!(s.active_days_percentage, 0);
    assert_eq!(s.longest_streak, 1);
    assert_eq!(s.best_month_name, None);
}

#[test]
fn month_hours_sum_by_month_in_order() {
    let daily = vec![day("2023-06-01", 10), day("2023-05-31", 5), day("2023-06-02", 20), day("bad", 7)];
    let m = month_hours_for(&daily);
    assert_eq!(m, vec![("2023-06".to_string(), 30), ("2023-05".to_string(), 5)]);
}

#[test]
fn completion_dates_give_year_and_month() {
    assert_eq!(completion_year_and_month("2023-06-01"), Some((2023, "2023-06".to_string())));
    assert_eq!(completion_year_and_month("2023-0"), None);
    assert_eq!(completion_year_and_month("abcd-06-01"), None);
    assert_eq!(completion_year_and_month("-123-06"), Some((-123, "-123-06".to_string())));
}

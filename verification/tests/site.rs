use koshelf::site::{format_duration, recap_share_assets_for_year, NavContext, SiteGenerator, SnapshotBuilder};
use koshelf::stats_types::WeeklyStats;
use koshelf::stats_types::{BookCompletions, ContentType, ReadCompletion, StatBook, StatisticsData};

fn completion(end_date: &str) -> ReadCompletion {
    ReadCompletion::new("2020-01-01".to_string(), end_date.to_string(), 10, 1, 5)
}

fn book(id: i64, ends: &[&str]) -> StatBook {
    StatBook {
        id,
        title: format!("Book {}", id),
        authors: String::new(),
        notes: None,
        last_open: None,
        highlights: None,
        pages: None,
        md5: format!("md5-{}", id),
        content_type: None,
        total_read_time: None,
        total_read_pages: None,
        completions: if ends.is_empty() {
            None
        } else {
            Some(BookCompletions::new(ends.iter().map(|e| completion(e)).collect()))
        },
    }
}

fn data(books: Vec<StatBook>) -> StatisticsData {
    StatisticsData { books, page_stats: vec![], stats_by_md5: vec![] }
}

#[test]
fn recap_link_points_at_latest_year() {
    let sd = data(vec![book(1, &["2021-03-04", "2023-01-01"]), book(2, &["2022-12-12", "xx"]), book(3, &[])]);
    assert_eq!(SiteGenerator::recap_latest_href(Some(&sd)), Some("/recap/2023/".to_string()));
    assert_eq!(SiteGenerator::recap_latest_href(Some(&data(vec![book(1, &["no"])]))), None);
    assert_eq!(SiteGenerator::recap_latest_href(None), None);
}

#[test]
fn site_directories() {
    let g = SiteGenerator::new("/out".to_string());
    assert_eq!(g.books_dir(), "/out/books");
    assert_eq!(g.comics_dir(), "/out/comics");
    assert_eq!(g.recap_dir(), "/out/recap");
    assert_eq!(g.covers_dir(), "/out/assets/covers");
    assert_eq!(g.content_dir(ContentType::Comic), "/out/comics");
    assert_eq!(SiteGenerator::content_slug(ContentType::Book), "books");
}

#[test]
fn snapshot_directories_depend_on_server_mode() {
    let internal = SnapshotBuilder::new("/data".to_string(), true);
    assert_eq!(internal.assets_dir(), "/data");
    assert_eq!(internal.covers_dir(), "/data/covers");
    let exported = SnapshotBuilder::new("/site".to_string(), false);
    assert_eq!(exported.assets_dir(), "/site/assets");
    assert_eq!(exported.recap_dir(), "/site/assets/recap");
}

#[test]
fn server_mode_script_goes_after_head() {
    let html = "<html><head><title>x</title></head><body></body></html>";
    let out = SnapshotBuilder::inject_server_mode_script(html, "internal");
    assert_eq!(
        out,
        "<html><head>\n        <script>window.__KOSHELF_SERVER_MODE = 'internal';</script><title>x</title></head><body></body></html>"
    );
}

#[test]
fn server_mode_script_before_body_or_in_front() {
    let out = SnapshotBuilder::inject_server_mode_script("<body class=\"a\">x</body>", "external");
    assert_eq!(
        out,
        "<script>window.__KOSHELF_SERVER_MODE = 'external';</script>\n    <body class=\"a\">x</body>"
    );
    let bare = SnapshotBuilder::inject_server_mode_script("plain", "m");
    assert_eq!(bare, "<script>window.__KOSHELF_SERVER_MODE = 'm';</script>\nplain");
}

#[test]
fn server_mode_script_is_not_added_twice() {
    let once = SnapshotBuilder::inject_server_mode_script("<head></head>", "internal");
    let twice = SnapshotBuilder::inject_server_mode_script(&once, "external");
    assert_eq!(once, twice);
}

#[test]
fn durations_in_days_hours_and_minutes() {
    assert_eq!(format_duration(0, "d", "h", "m"), "0m");
    assert_eq!(format_duration(-5, "d", "h", "m"), "0m");
    assert_eq!(format_duration(59, "d", "h", "m"), "0m");
    assert_eq!(format_duration(3600, "d", "h", "m"), "1h");
    assert_eq!(format_duration(2 * 86400 + 5 * 3600 + 30 * 60 + 7, "d", "h", "m"), "2d 5h 30m");
    assert_eq!(format_duration(86400 + 60, " Tag", " Std", " Min"), "1 Tag 1 Min");
}

#[test]
fn type_filter_needs_books_and_comics() {
    let both = NavContext { has_books: true, has_comics: true, stats_at_root: false };
    let books_only = NavContext { has_books: true, has_comics: false, stats_at_root: true };
    assert!(both.show_type_filter());
    assert!(!books_only.show_type_filter());
}

#[test]
fn weeks_keyed_by_start_date_keep_the_first() {
    let week = |start: &str, read_time: i64| WeeklyStats {
        start_date: start.to_string(),
        end_date: "e".to_string(),
        read_time,
        pages_read: 1,
        longest_session_duration: None,
        average_session_duration: None,
    };
    let weeks = vec![week("2024-03-11", 10), week("2024-03-04", 20), week("2024-03-11", 30)];
    let keyed = SiteGenerator::week_stats_by_key(&weeks);
    let got: Vec<(&str, i64)> = keyed.iter().map(|(k, w)| (k.as_str(), w.read_time)).collect();
    assert_eq!(got, vec![("2024-03-11", 10), ("2024-03-04", 20)]);
    assert_eq!(SnapshotBuilder::week_stats_by_key(&weeks).len(), 2);
}

#[test]
fn recap_share_image_addresses() {
    let assets = recap_share_assets_for_year(2024);
    assert_eq!(assets.story_url, "/assets/recap/2024_share_story.webp");
    assert_eq!(assets.square_url, "/assets/recap/2024_share_square.webp");
    assert_eq!(assets.banner_url, "/assets/recap/2024_share_banner.webp");
}

#[test]
fn site_directories_under_the_output() {
    let site = SiteGenerator::new("/srv/site".to_string());
    assert_eq!(site.calendar_dir(), "/srv/site/calendar");
    assert_eq!(site.statistics_dir(), "/srv/site/statistics");
    assert_eq!(site.css_dir(), "/srv/site/assets/css");
    assert_eq!(site.js_dir(), "/srv/site/assets/js");
    assert_eq!(site.icons_dir(), "/srv/site/assets/icons");
    assert_eq!(site.json_dir(), "/srv/site/assets/json");
    assert_eq!(site.statistics_json_dir(), "/srv/site/assets/json/statistics");
    assert_eq!(site.calendar_json_dir(), "/srv/site/assets/json/calendar");
}

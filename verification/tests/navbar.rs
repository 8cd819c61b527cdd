use koshelf::navbar::NavLabels;
use koshelf::site::{NavContext, SiteGenerator};

fn labels() -> NavLabels {
    NavLabels {
        books: "Books".to_string(),
        comics: "Comics".to_string(),
        statistics: "Statistics".to_string(),
        calendar: "Calendar".to_string(),
        recap: "Recap".to_string(),
    }
}

#[test]
fn navbar_with_books_comics_and_statistics() {
    let nav = NavContext { has_books: true, has_comics: true, stats_at_root: false };
    let items = SiteGenerator::create_navbar_items("comics", nav, true, &labels());
    let hrefs: Vec<&str> = items.iter().map(|i| i.href.as_str()).collect();
    assert_eq!(hrefs, vec!["/", "/comics/", "/statistics/", "/calendar/"]);
    let active: Vec<bool> = items.iter().map(|i| i.is_active).collect();
    assert_eq!(active, vec![false, true, false, false]);
    assert_eq!(items[0].label, "Books");
    assert_eq!(items[2].id, Some("nav-statistics".to_string()));
    assert_eq!(items[3].id, None);
    assert!(items[3].icon_svg.starts_with("M8 7V3"));
}

#[test]
fn navbar_comics_only_is_home() {
    let nav = NavContext { has_books: false, has_comics: true, stats_at_root: false };
    let items = SiteGenerator::create_navbar_items("books", nav, false, &labels());
    assert_eq!(items.len(), 1);
    assert_eq!(items[0].href, "/");
    assert_eq!(items[0].label, "Comics");
    assert!(!items[0].is_active);
}

#[test]
fn navbar_statistics_at_root() {
    let nav = NavContext { has_books: false, has_comics: false, stats_at_root: true };
    let items = SiteGenerator::create_navbar_items("statistics", nav, true, &labels());
    assert_eq!(items.len(), 2);
    assert_eq!(items[0].href, "/");
    assert!(items[0].is_active);
}

#[test]
fn navbar_recap_entry() {
    let nav = NavContext { has_books: true, has_comics: false, stats_at_root: false };
    let items = SiteGenerator::create_navbar_items_with_recap("recap", Some("/recap/2024/"), nav, true, &labels());
    assert_eq!(items.len(), 4);
    assert_eq!(items[3].href, "/recap/2024/");
    assert_eq!(items[3].id, Some("nav-recap".to_string()));
    assert!(items[3].is_active);
    let items = SiteGenerator::create_navbar_items_with_recap("books", None, nav, true, &labels());
    assert_eq!(items[3].href, "/recap/");
    let items = SiteGenerator::create_navbar_items_with_recap("books", None, nav, false, &labels());
    assert_eq!(items.len(), 1);
    assert!(items[0].is_active);
}

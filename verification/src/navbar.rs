//! The navigation bar of the generated pages: which entries it has, where they lead, and which
//! one is marked as the current page.
use vstd::prelude::*;
use crate::site::{NavContext, SiteGenerator};
use crate::text::{chars_of, copy_string, str_eq, string_from_chars};
use crate::xml::opt_view;

verus! {

/// An entry of the navigation bar.
#[derive(Debug, Clone, PartialEq, Eq)]
pub struct NavItem {
    pub label: String,
    pub href: String,
    /// The SVG path of its icon.
    pub icon_svg: String,
    pub is_active: bool,
    /// The HTML id scripts use to find the entry.
    pub id: Option<String>,
}

/// The translated labels of the entries.
pub struct NavLabels {
    pub books: String,
    pub comics: String,
    pub statistics: String,
    pub calendar: String,
    pub recap: String,
}

/// An entry as plain text.
pub struct NavItemView {
    pub label: Seq<char>,
    pub href: Seq<char>,
    pub icon_svg: Seq<char>,
    pub is_active: bool,
    pub id: Option<Seq<char>>,
}

/// The view of an entry.
pub open spec fn nav_item_view(i: NavItem) -> NavItemView {
    NavItemView {
        label: i.label@,
        href: i.href@,
        icon_svg: i.icon_svg@,
        is_active: i.is_active,
        id: opt_view(i.id),
    }
}

/// The views of a list of entries.
pub open spec fn nav_views(v: Seq<NavItem>) -> Seq<NavItemView> {
    v.map_values(|i: NavItem| nav_item_view(i))
}

/// Icon of the books entry (an open book).
pub open spec fn books_icon() -> Seq<char> {
    "M12 6.253v13m0-13C10.832 5.477 9.246 5 7.5 5S4.168 5.477 3 6.253v13C4.168 18.477 5.754 18 7.5 18s3.332.477 4.5 1.253m0-13C13.168 5.477 14.754 5 16.5 5c1.746 0 3.332.477 4.5 1.253v13C19.832 18.477 18.246 18 16.5 18c-1.746 0-3.332.477-4.5 1.253"@
}

/// Icon of the comics entry (a speech bubble).
pub open spec fn comics_icon() -> Seq<char> {
    "M8 12h.01M12 12h.01M16 12h.01M21 12c0 4.418-4.03 8-9 8a9.863 9.863 0 01-4.255-.949L3 20l1.395-3.72C3.512 15.042 3 13.574 3 12c0-4.418 4.03-8 9-8s9 3.582 9 8z"@
}

/// Icon of the statistics entry (a bar chart).
pub open spec fn statistics_icon() -> Seq<char> {
    "M9 19v-6a2 2 0 00-2-2H5a2 2 0 00-2 2v6a2 2 0 002 2h2a2 2 0 002-2zm0 0V9a2 2 0 012-2h2a2 2 0 012 2v10m-6 0a2 2 0 002 2h2a2 2 0 002-2m0 0V5a2 2 0 012-2h2a2 2 0 012 2v14a2 2 0 01-2 2h-2a2 2 0 01-2-2z"@
}

/// Icon of the calendar entry.
pub open spec fn calendar_icon() -> Seq<char> {
    "M8 7V3m8 4V3m-9 8h10M5 21h14a2 2 0 002-2V7a2 2 0 00-2-2H5a2 2 0 00-2 2v12a2 2 0 002 2z"@
}

/// Icon of the recap entry (a clock).
pub open spec fn recap_icon() -> Seq<char> {
    "M12 8v4l3 3m6-3a9 9 0 11-18 0 9 9 0 0118 0z"@
}

/// The entries of the navigation bar on page `current`: books where there are books (at `/`);
/// comics where there are comics (at `/comics/`, or at `/` when there are no books); and, where
/// statistics are configured, statistics (at `/`, or `/statistics/` unless the statistics page
/// is the root page) and the calendar (at `/calendar/`). An entry is active on the page of its
/// own name.
pub open spec fn navbar(current: Seq<char>, nav: NavContext, has_statistics: bool, labels: NavLabels) -> Seq<NavItemView> {
    let books = if nav.has_books {
        seq![
            NavItemView {
                label: labels.books@,
                href: "/"@,
                icon_svg: books_icon(),
                is_active: current == "books"@,
                id: None,
            },
        ]
    } else {
        Seq::empty()
    };
    let comics = if nav.has_comics {
        seq![
            NavItemView {
                label: labels.comics@,
                href: if nav.has_books { "/comics/"@ } else { "/"@ },
                icon_svg: comics_icon(),
                is_active: current == "comics"@,
                id: None,
            },
        ]
    } else {
        Seq::empty()
    };
    let stats = if has_statistics {
        seq![
            NavItemView {
                label: labels.statistics@,
                href: if nav.stats_at_root { "/"@ } else { "/statistics/"@ },
                icon_svg: statistics_icon(),
                is_active: current == "statistics"@,
                id: Some("nav-statistics"@),
            },
            NavItemView {
                label: labels.calendar@,
                href: "/calendar/"@,
                icon_svg: calendar_icon(),
                is_active: current == "calendar"@,
                id: None,
            },
        ]
    } else {
        Seq::empty()
    };
    books + comics + stats
}

/// `navbar`, with, where statistics are configured, the recap entry at the end (leading to the
/// latest recap page given, else `/recap/`).
pub open spec fn navbar_with_recap(
    current: Seq<char>,
    recap_latest_href: Option<Seq<char>>,
    nav: NavContext,
    has_statistics: bool,
    labels: NavLabels,
) -> Seq<NavItemView> {
    let base = navbar(current, nav, has_statistics, labels);
    if has_statistics {
        base.push(
            NavItemView {
                label: labels.recap@,
                href: match recap_latest_href {
                    Some(h) => h,
                    None => "/recap/"@,
                },
                icon_svg: recap_icon(),
                is_active: current == "recap"@,
                id: Some("nav-recap"@),
            },
        )
    } else {
        base
    }
}

/// An entry with the given parts.
fn nav_item(label: &String, href: &str, icon_svg: &str, is_active: bool, id: Option<&str>) -> (r: NavItem)
    ensures
        nav_item_view(r) == (NavItemView {
            label: label@,
            href: href@,
            icon_svg: icon_svg@,
            is_active,
            id: match id {
                Some(s) => Some(s@),
                None => None,
            },
        }),
{
    NavItem {
        label: copy_string(label),
        href: string_from_chars(chars_of(href).as_slice()),
        icon_svg: string_from_chars(chars_of(icon_svg).as_slice()),
        is_active,
        id: match id {
            Some(s) => Some(string_from_chars(chars_of(s).as_slice())),
            None => None,
        },
    }
}

impl SiteGenerator {
    /// The navigation bar of page `current_page` (see `navbar`); `has_statistics` is whether
    /// a statistics database is configured.
    pub fn create_navbar_items(current_page: &str, nav: NavContext, has_statistics: bool, labels: &NavLabels) -> (r: Vec<NavItem>)
        ensures
            nav_views(r@) == navbar(current_page@, nav, has_statistics, *labels),
    {
        let mut items: Vec<NavItem> = Vec::new();
        if nav.has_books {
            items.push(
                nav_item(
                    &labels.books,
                    "/",
                    "M12 6.253v13m0-13C10.832 5.477 9.246 5 7.5 5S4.168 5.477 3 6.253v13C4.168 18.477 5.754 18 7.5 18s3.332.477 4.5 1.253m0-13C13.168 5.477 14.754 5 16.5 5c1.746 0 3.332.477 4.5 1.253v13C19.832 18.477 18.246 18 16.5 18c-1.746 0-3.332.477-4.5 1.253",
                    str_eq(current_page, "books"),
                    None,
                ),
            );
        }
        let ghost a = nav_views(items@);
        if nav.has_comics {
            let href = if nav.has_books { "/comics/" } else { "/" };
            items.push(
                nav_item(
                    &labels.comics,
                    href,
                    "M8 12h.01M12 12h.01M16 12h.01M21 12c0 4.418-4.03 8-9 8a9.863 9.863 0 01-4.255-.949L3 20l1.395-3.72C3.512 15.042 3 13.574 3 12c0-4.418 4.03-8 9-8s9 3.582 9 8z",
                    str_eq(current_page, "comics"),
                    None,
                ),
            );
        }
        let ghost b = nav_views(items@);
        if has_statistics {
            let href = if nav.stats_at_root { "/" } else { "/statistics/" };
            items.push(
                nav_item(
                    &labels.statistics,
                    href,
                    "M9 19v-6a2 2 0 00-2-2H5a2 2 0 00-2 2v6a2 2 0 002 2h2a2 2 0 002-2zm0 0V9a2 2 0 012-2h2a2 2 0 012 2v10m-6 0a2 2 0 002 2h2a2 2 0 002-2m0 0V5a2 2 0 012-2h2a2 2 0 012 2v14a2 2 0 01-2 2h-2a2 2 0 01-2-2z",
                    str_eq(current_page, "statistics"),
                    Some("nav-statistics"),
                ),
            );
            items.push(
                nav_item(
                    &labels.calendar,
                    "/calendar/",
                    "M8 7V3m8 4V3m-9 8h10M5 21h14a2 2 0 002-2V7a2 2 0 00-2-2H5a2 2 0 00-2 2v12a2 2 0 002 2z",
                    str_eq(current_page, "calendar"),
                    None,
                ),
            );
        }
        assert(nav_views(items@) =~= navbar(current_page@, nav, has_statistics, *labels));
        items
    }

    /// The navigation bar with the recap entry (see `navbar_with_recap`).
    pub fn create_navbar_items_with_recap(
        current_page: &str,
        recap_latest_href: Option<&str>,
        nav: NavContext,
        has_statistics: bool,
        labels: &NavLabels,
    ) -> (r: Vec<NavItem>)
        ensures
            nav_views(r@) == navbar_with_recap(
                current_page@,
                match recap_latest_href {
                    Some(h) => Some(h@),
                    None => None,
                },
                nav,
                has_statistics,
                *labels,
            ),
    {
        let mut items = Self::create_navbar_items(current_page, nav, has_statistics, labels);
        if has_statistics {
            let href = match recap_latest_href {
                Some(h) => h,
                None => "/recap/",
            };
            let ghost before = nav_views(items@);
            items.push(
                nav_item(
                    &labels.recap,
                    href,
                    "M12 8v4l3 3m6-3a9 9 0 11-18 0 9 9 0 0118 0z",
                    str_eq(current_page, "recap"),
                    Some("nav-recap"),
                ),
            );
            assert(nav_views(items@) =~= before.push(nav_item_view(items@.last())));
        }
        items
    }
}

} // verus!

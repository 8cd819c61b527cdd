//! KoShelf core: the verified logic behind a KOReader reading companion.
pub mod fingerprints;
pub mod text;
pub mod paths;
pub mod lifecycle;
pub mod sqlite_snapshot;

pub mod dates;
pub mod stats_types;
pub mod sessions;
pub mod activity;
pub mod streaks;
pub mod dedup;
pub mod lua_value;
pub mod cache_manifest;
pub mod store;
pub mod kobo;
pub mod scanner;
pub mod recap;
pub mod site;
pub mod lua_table;
pub mod mutations;
pub mod utils;
pub mod parsers;
pub mod stats_calc;
pub mod time_config;
pub mod xml;
pub mod opf;
pub mod fb2;
pub mod fb2_chapters;
pub mod fb2_book;
pub mod comic_info;
pub mod navbar;
pub mod recap_months;
pub mod epub_book;
pub mod calendar;
pub mod comic_book;
pub mod lua_metadata;

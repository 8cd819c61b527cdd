use koshelf::lua_table::{int_index, str_index};
use koshelf::lua_value::{LuaKey, LuaValue};
use koshelf::mutations::{
    apply_annotation_deletion, apply_annotation_mutations, apply_item_mutations, delete_annotation,
    write_annotation_metadata, write_item_metadata, MetadataWriteError,
};

type Entries = Vec<(LuaKey, LuaValue)>;

fn s(k: &str) -> LuaKey {
    LuaKey::Str(k.to_string())
}

fn text(v: &str) -> LuaValue {
    LuaValue::Str(v.to_string())
}

fn get<'a>(t: &'a Entries, k: &str) -> Option<&'a LuaValue> {
    str_index(t, k).map(|i| &t[i].1)
}

fn table<'a>(t: &'a Entries, k: &str) -> &'a Entries {
    match get(t, k) {
        Some(LuaValue::Table(x)) => x,
        _ => panic!("no table under {}", k),
    }
}

fn annotation(note: Option<&str>, drawer: Option<&str>) -> LuaValue {
    let mut e = vec![(s("text"), text("passage"))];
    if let Some(n) = note {
        e.push((s("note"), text(n)));
    }
    if let Some(d) = drawer {
        e.push((s("drawer"), text(d)));
    }
    LuaValue::Table(e)
}

fn metadata() -> Entries {
    vec![
        (s("title"), text("Book")),
        (
            s("annotations"),
            LuaValue::Table(vec![
                (LuaKey::Int(1), annotation(None, Some("lighten"))),
                (LuaKey::Int(2), annotation(Some("remark"), Some("underscore"))),
                (LuaKey::Int(3), annotation(None, None)),
            ]),
        ),
        (
            s("stats"),
            LuaValue::Table(vec![
                (s("highlights"), LuaValue::Integer(1)),
                (s("notes"), LuaValue::Integer(1)),
                (s("pages"), LuaValue::Integer(100)),
            ]),
        ),
    ]
}

fn int_of(v: Option<&LuaValue>) -> Option<i64> {
    match v {
        Some(LuaValue::Integer(i)) => Some(*i),
        _ => None,
    }
}

fn text_of(v: Option<&LuaValue>) -> Option<&str> {
    match v {
        Some(LuaValue::Str(t)) => Some(t.as_str()),
        _ => None,
    }
}

#[test]
fn item_mutations_create_summary_and_stamp_date() {
    let mut t = vec![(s("title"), text("Book"))];
    apply_item_mutations(&mut t, Some(Some("great")), Some(4), Some("complete"), "2024-05-01");
    let summary = table(&t, "summary");
    assert_eq!(text_of(get(summary, "note")), Some("great"));
    assert_eq!(int_of(get(summary, "rating")), Some(4));
    assert_eq!(text_of(get(summary, "status")), Some("complete"));
    assert_eq!(text_of(get(summary, "modified")), Some("2024-05-01"));
    assert_eq!(text_of(get(&t, "title")), Some("Book"));
}

#[test]
fn item_mutations_clear_note_and_zero_rating() {
    let mut t = vec![(
        s("summary"),
        LuaValue::Table(vec![
            (s("note"), text("old")),
            (s("rating"), LuaValue::Integer(3)),
            (s("status"), text("reading")),
        ]),
    )];
    apply_item_mutations(&mut t, Some(None), Some(0), None, "2024-01-02");
    let summary = table(&t, "summary");
    assert!(get(summary, "note").is_none());
    assert!(get(summary, "rating").is_none());
    assert_eq!(text_of(get(summary, "status")), Some("reading"));
    assert_eq!(text_of(get(summary, "modified")), Some("2024-01-02"));
}

#[test]
fn write_item_metadata_gives_file_text() {
    let mut t = vec![(s("title"), text("Book"))];
    let out = write_item_metadata(&mut t, "/lib/b.sdr/metadata.epub.lua", None, Some(5), None, "2024-02-03")
        .expect("writes");
    assert_eq!(
        out,
        "-- /lib/b.sdr/metadata.epub.lua\nreturn {\n    [\"summary\"] = {\n        [\"modified\"] = \"2024-02-03\",\n        [\"rating\"] = 5,\n    },\n    [\"title\"] = \"Book\",\n}\n"
    );
}

#[test]
fn adding_a_note_moves_highlight_counter_to_notes() {
    let mut t = metadata();
    apply_annotation_mutations(&mut t, 1, Some(Some("new note")), Some("yellow"), None, Some("2024-03-04 10:00:00"))
        .expect("annotation exists");
    let anns = table(&t, "annotations");
    let i = int_index(anns, 1).unwrap();
    let a = match &anns[i].1 {
        LuaValue::Table(x) => x,
        _ => panic!(),
    };
    assert_eq!(text_of(get(a, "note")), Some("new note"));
    assert_eq!(text_of(get(a, "color")), Some("yellow"));
    assert_eq!(text_of(get(a, "drawer")), Some("lighten"));
    assert_eq!(text_of(get(a, "datetime_updated")), Some("2024-03-04 10:00:00"));
    let stats = table(&t, "stats");
    assert_eq!(int_of(get(stats, "highlights")), Some(0));
    assert_eq!(int_of(get(stats, "notes")), Some(2));
    assert_eq!(int_of(get(stats, "pages")), Some(100));
}

#[test]
fn removing_a_note_moves_notes_counter_back() {
    let mut t = metadata();
    apply_annotation_mutations(&mut t, 2, Some(None), None, None, None).expect("annotation exists");
    let stats = table(&t, "stats");
    assert_eq!(int_of(get(stats, "highlights")), Some(2));
    assert_eq!(int_of(get(stats, "notes")), Some(0));
}

#[test]
fn bookmark_note_leaves_counters() {
    let mut t = metadata();
    apply_annotation_mutations(&mut t, 3, Some(Some("n")), None, None, None).expect("annotation exists");
    let stats = table(&t, "stats");
    assert_eq!(int_of(get(stats, "highlights")), Some(1));
    assert_eq!(int_of(get(stats, "notes")), Some(1));
}

#[test]
fn missing_annotation_is_reported() {
    let mut t = metadata();
    let before = format!("{:?}", t);
    assert_eq!(
        apply_annotation_mutations(&mut t, 9, Some(None), None, None, None),
        Err(MetadataWriteError::NoAnnotation(9))
    );
    assert_eq!(format!("{:?}", t), before);
    let mut bare = vec![(s("title"), text("Book"))];
    assert_eq!(
        apply_annotation_mutations(&mut bare, 1, None, None, None, None),
        Err(MetadataWriteError::AnnotationsMissing)
    );
}

#[test]
fn deleting_shifts_later_annotations_down() {
    let mut t = metadata();
    apply_annotation_deletion(&mut t, 1).expect("deleted");
    let anns = table(&t, "annotations");
    assert!(int_index(anns, 3).is_none());
    let first = &anns[int_index(anns, 1).unwrap()].1;
    match first {
        LuaValue::Table(a) => assert_eq!(text_of(get(a, "note")), Some("remark")),
        _ => panic!(),
    }
    let stats = table(&t, "stats");
    assert_eq!(int_of(get(stats, "highlights")), Some(0));
    assert_eq!(int_of(get(stats, "notes")), Some(1));
}

#[test]
fn deleting_last_annotation_clears_it() {
    let mut t = metadata();
    apply_annotation_deletion(&mut t, 3).expect("deleted");
    let anns = table(&t, "annotations");
    assert!(int_index(anns, 3).is_none());
    assert!(int_index(anns, 2).is_some());
    let stats = table(&t, "stats");
    assert_eq!(int_of(get(stats, "highlights")), Some(1));
    assert_eq!(int_of(get(stats, "notes")), Some(1));
}

#[test]
fn deleting_past_the_list_is_out_of_bounds() {
    let mut t = vec![(
        s("annotations"),
        LuaValue::Table(vec![
            (LuaKey::Int(1), annotation(None, None)),
            (LuaKey::Int(5), annotation(None, None)),
        ]),
    )];
    assert_eq!(
        apply_annotation_deletion(&mut t, 5),
        Err(MetadataWriteError::PositionOutOfBounds(5))
    );
}

#[test]
fn counters_do_not_go_below_zero() {
    let mut t = metadata();
    if let Some(i) = str_index(&t, "stats") {
        t[i].1 = LuaValue::Table(vec![(s("highlights"), LuaValue::Integer(0))]);
    }
    apply_annotation_deletion(&mut t, 1).expect("deleted");
    assert_eq!(int_of(get(table(&t, "stats"), "highlights")), Some(0));
}

#[test]
fn write_and_delete_give_file_text_from_zero_based_index() {
    let mut t = metadata();
    let out = write_annotation_metadata(&mut t, "m.lua", 0, None, Some("red"), None, None).expect("writes");
    assert!(out.starts_with("-- m.lua\nreturn {\n"));
    assert!(out.contains("[\"color\"] = \"red\","));
    let mut t2 = metadata();
    let out2 = delete_annotation(&mut t2, "m.lua", 2).expect("deletes");
    assert!(!out2.contains("[3] = "));
}

use koshelf::lua_metadata::{metadata_of_table, table_from_outcome, BookStatus, KoReaderMetadata, LuaParseError, LuaParser};
use koshelf::lua_value::{LuaKey, LuaValue};

fn key_of(v: mlua::Value) -> LuaKey {
    match v {
        mlua::Value::Integer(i) => LuaKey::Int(i),
        mlua::Value::String(s) => match s.to_str() {
            Ok(t) => LuaKey::Str(t.to_string()),
            Err(_) => LuaKey::BadStr,
        },
        _ => LuaKey::Other,
    }
}

fn value_of(v: mlua::Value) -> LuaValue {
    match v {
        mlua::Value::Nil => LuaValue::Nil,
        mlua::Value::Boolean(b) => LuaValue::Boolean(b),
        mlua::Value::Integer(i) => LuaValue::Integer(i),
        mlua::Value::Number(n) => LuaValue::Number(format!("{}", n)),
        mlua::Value::String(s) => match s.to_str() {
            Ok(t) => LuaValue::Str(t.to_string()),
            Err(_) => LuaValue::BadStr,
        },
        mlua::Value::Table(t) => LuaValue::Table(entries_of(t)),
        _ => LuaValue::Unsupported,
    }
}

fn entries_of(t: mlua::Table) -> Vec<(LuaKey, LuaValue)> {
    t.pairs::<mlua::Value, mlua::Value>().map(|p| p.expect("pair")).map(|(k, v)| (key_of(k), value_of(v))).collect()
}

fn evaluate(content: &[u8]) -> Result<Option<Vec<(LuaKey, LuaValue)>>, LuaParseError> {
    let text = String::from_utf8_lossy(content);
    let lua = mlua::Lua::new_with(mlua::StdLib::NONE, mlua::LuaOptions::default()).expect("lua");
    match lua.load(&*text).eval::<mlua::Value>() {
        Ok(mlua::Value::Table(t)) => Ok(Some(entries_of(t))),
        Ok(_) => Ok(None),
        Err(_) => Err(LuaParseError::Eval),
    }
}

fn parse(content: &[u8]) -> Result<KoReaderMetadata, LuaParseError> {
    LuaParser::new().parse(evaluate(content))
}

#[test]
fn ignores_fractional_numbers_for_u32_fields() {
    let content = r#"return {
                font_face = "Noto Serif",
                copt_line_spacing = 110.5,
                copt_h_page_margins = { 20.5, 20 },
                copt_t_page_margin = 10.2,
            }"#;
    let metadata = parse(content.as_bytes())
        .expect("metadata should parse successfully");
    let presentation = metadata
        .reader_presentation
        .expect("reader presentation should still be present");
    assert_eq!(presentation.font_face.as_deref(), Some("Noto Serif"));
    assert_eq!(presentation.line_spacing_percentage, None);
    assert_eq!(presentation.horizontal_margins, None);
    assert_eq!(presentation.top_margin, None);
}

#[test]
fn parses_handmade_flow_points() {
    let content = r#"return {
                doc_pages = 1000,
                handmade_flows_enabled = true,
                handmade_flow_points = {
                    [1] = {
                        hidden = true,
                        page = 540,
                        xpointer = "/body/DocFragment[23]/body/div/p[183]/span/text().206",
                    },
                },
            }"#;
    let metadata = parse(content.as_bytes())
        .expect("metadata should parse successfully");
    assert_eq!(metadata.doc_pages, Some(1000));
    assert_eq!(metadata.handmade_flows_enabled, Some(true));
    assert_eq!(metadata.handmade_flow_points.len(), 1);
    assert!(metadata.handmade_flow_points[0].hidden);
    assert_eq!(metadata.handmade_flow_points[0].page, 540);
}

#[test]
fn parses_multiple_flow_points() {
    let content = r#"return {
                doc_pages = 800,
                handmade_flows_enabled = true,
                handmade_flow_points = {
                    [1] = { hidden = true, page = 100 },
                    [2] = { hidden = false, page = 150 },
                    [3] = { hidden = true, page = 700 },
                },
            }"#;
    let metadata = parse(content.as_bytes())
        .expect("metadata should parse successfully");
    assert_eq!(metadata.handmade_flow_points.len(), 3);
    let pages: Vec<(bool, u32)> = metadata.handmade_flow_points.iter().map(|f| (f.hidden, f.page)).collect();
    assert_eq!(pages, vec![(true, 100), (false, 150), (true, 700)]);
}

#[test]
fn parses_file_with_invalid_utf8() {
    let mut content: Vec<u8> = Vec::new();
    content.extend_from_slice(b"return {\n");
    content.extend_from_slice(b"    [\"annotations\"] = {\n");
    content.extend_from_slice(b"        [1] = {\n");
    content.extend_from_slice(b"            [\"text\"] = \"Fran");
    content.push(0xc3);
    content.extend_from_slice(b"...\",\n");
    content.extend_from_slice(b"        },\n");
    content.extend_from_slice(b"    },\n");
    content.extend_from_slice(b"}");
    let metadata = parse(&content)
        .expect("should parse despite invalid UTF-8");
    assert_eq!(metadata.annotations.len(), 1);
    let text = metadata.annotations[0].text.as_deref().unwrap();
    assert!(text.starts_with("Fran"));
    assert!(text.ends_with("..."));
}

#[test]
fn no_flow_points_returns_empty_vec() {
    let content = r#"return {
                doc_pages = 500,
            }"#;
    let metadata = parse(content.as_bytes())
        .expect("metadata should parse successfully");
    assert_eq!(metadata.handmade_flows_enabled, None);
    assert!(metadata.handmade_flow_points.is_empty());
    assert!(metadata.reader_presentation.is_none());
}

#[test]
fn summary_stats_and_props_are_read() {
    let content = r#"return {
                percent_finished = 0.5,
                summary = { status = "complete", rating = 4, note = "good", modified = "2024-01-02" },
                stats = { highlights = 3, notes = 1, pages = 200, title = "T" },
                doc_props = { title = "Book", authors = "A" },
                hyphenation = 1,
                copt_embedded_fonts = false,
                copt_word_spacing = { 95, 75 },
                copt_font_size = 22,
            }"#;
    let m = parse(content.as_bytes()).expect("parses");
    assert_eq!(m.percent_finished.as_deref(), Some("0.5"));
    let s = m.summary.expect("summary");
    assert_eq!(s.status, BookStatus::Complete);
    assert_eq!(s.rating, Some(4));
    assert_eq!(s.note.as_deref(), Some("good"));
    let st = m.stats.expect("stats");
    assert_eq!((st.highlights, st.notes, st.pages), (Some(3), Some(1), Some(200)));
    assert_eq!(m.doc_props.expect("props").title.as_deref(), Some("Book"));
    let p = m.reader_presentation.expect("presentation");
    assert_eq!(p.hyphenation, Some(true));
    assert_eq!(p.embedded_fonts, Some(false));
    assert_eq!(p.word_spacing, Some((95, 75)));
    assert_eq!(p.font_size_pt.as_deref(), Some("22"));
}

#[test]
fn unknown_status_and_wrong_types_read_as_absent() {
    let table = vec![
        (LuaKey::Str("doc_pages".to_string()), LuaValue::Str("12".to_string())),
        (LuaKey::Str("doc_path".to_string()), LuaValue::Integer(3)),
        (
            LuaKey::Str("summary".to_string()),
            LuaValue::Table(vec![(LuaKey::Str("status".to_string()), LuaValue::Str("paused".to_string()))]),
        ),
        (LuaKey::Str("pagemap_doc_pages".to_string()), LuaValue::Integer(-1)),
    ];
    let m = metadata_of_table(&table);
    assert_eq!(m.doc_pages, None);
    assert_eq!(m.doc_path, None);
    assert_eq!(m.pagemap_doc_pages, None);
    assert_eq!(m.summary.expect("summary").status, BookStatus::Unknown);
    assert!(m.stats.is_none());
}

#[test]
fn annotations_stop_at_the_first_missing_index() {
    let ann = |t: &str| LuaValue::Table(vec![(LuaKey::Str("text".to_string()), LuaValue::Str(t.to_string()))]);
    let table = vec![(
        LuaKey::Str("annotations".to_string()),
        LuaValue::Table(vec![(LuaKey::Int(2), ann("b")), (LuaKey::Int(1), ann("a")), (LuaKey::Int(4), ann("d"))]),
    )];
    let m = metadata_of_table(&table);
    let texts: Vec<Option<String>> = m.annotations.iter().map(|a| a.text.clone()).collect();
    assert_eq!(texts, vec![Some("a".to_string()), Some("b".to_string())]);
}

#[test]
fn evaluation_errors_are_reported() {
    assert!(matches!(parse(b"return {"), Err(LuaParseError::Eval)));
    assert!(matches!(parse(b"return 5"), Err(LuaParseError::NotATable)));
    assert!(matches!(table_from_outcome(Ok(None)), Err(LuaParseError::NotATable)));
}

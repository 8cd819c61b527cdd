use koshelf::lua_table::{put_str, str_index};
use koshelf::lua_value::{backup_path, serialize_table, LuaKey, LuaValue, LuaWriteError};

fn key_of(v: mlua::Value) -> LuaKey {
    match v {
        mlua::Value::Integer(i) => LuaKey::Int(i),
        mlua::Value::Number(n) if n == (n as i64) as f64 => LuaKey::Int(n as i64),
        mlua::Value::String(s) => match s.to_str() {
            Ok(t) => LuaKey::Str(t.to_string()),
            Err(_) => LuaKey::BadStr,
        },
        _ => LuaKey::Other,
    }
}

fn value_of(v: mlua::Value) -> LuaValue {
    match v {
        mlua::Value::Nil => LuaValue::Nil,
        mlua::Value::Boolean(b) => LuaValue::Boolean(b),
        mlua::Value::Integer(i) => LuaValue::Integer(i),
        mlua::Value::Number(n) => {
            if n == (n as i64) as f64 {
                LuaValue::Number(format!("{}", n as i64))
            } else {
                LuaValue::Number(format!("{}", n))
            }
        }
        mlua::Value::String(s) => match s.to_str() {
            Ok(t) => LuaValue::Str(t.to_string()),
            Err(_) => LuaValue::BadStr,
        },
        mlua::Value::Table(t) => LuaValue::Table(entries_of(t)),
        mlua::Value::Function(_)
        | mlua::Value::UserData(_)
        | mlua::Value::Thread(_)
        | mlua::Value::LightUserData(_)
        | mlua::Value::Error(_) => LuaValue::Unsupported,
        _ => LuaValue::Opaque,
    }
}

fn entries_of(t: mlua::Table) -> Vec<(LuaKey, LuaValue)> {
    let mut out = Vec::new();
    for pair in t.pairs::<mlua::Value, mlua::Value>() {
        let (k, v) = pair.expect("table pair");
        out.push((key_of(k), value_of(v)));
    }
    out
}

fn parse(src: &str) -> Vec<(LuaKey, LuaValue)> {
    let lua = mlua::Lua::new();
    match lua.load(src).eval::<mlua::Value>().expect("lua evaluates") {
        mlua::Value::Table(t) => entries_of(t),
        _ => panic!("expected a table"),
    }
}

const PATH: &str = "/tmp/books/metadata.epub.lua";

#[test]
fn round_trip_preserves_data() {
    let mut table = parse(
        r#"return {
    ["title"] = "Test Book",
    ["summary"] = {
        ["note"] = "original note",
        ["rating"] = 3,
        ["status"] = "reading",
    },
}"#,
    );
    let i = str_index(&table, "summary").expect("summary present");
    if let LuaValue::Table(summary) = &mut table[i].1 {
        put_str(summary, "note", LuaValue::Str("updated note".to_string()));
        put_str(summary, "rating", LuaValue::Integer(5));
    } else {
        panic!("summary is a table");
    }
    let content = serialize_table(&table, PATH).expect("serializes");
    assert!(content.contains("\"updated note\""));
    assert!(content.contains("[\"rating\"] = 5"));
}

#[test]
fn serializer_sorts_keys() {
    let table = parse(
        r#"return {
    ["zebra"] = 1,
    ["alpha"] = 2,
    [2] = "second",
    [1] = "first",
}"#,
    );
    let content = serialize_table(&table, PATH).expect("serializes");
    let alpha_pos = content.find("[\"alpha\"]").unwrap();
    let zebra_pos = content.find("[\"zebra\"]").unwrap();
    let first_pos = content.find("[1]").unwrap();
    let second_pos = content.find("[2]").unwrap();
    assert!(first_pos < alpha_pos);
    assert!(second_pos < alpha_pos);
    assert!(first_pos < second_pos);
    assert!(alpha_pos < zebra_pos);
}

#[test]
fn skips_non_data_types() {
    let table = parse(
        r#"return {
    ["valid"] = "data",
    ["also_valid"] = 42,
}"#,
    );
    let content = serialize_table(&table, PATH).expect("serializes");
    assert!(content.contains("[\"valid\"] = \"data\""));
    assert!(content.contains("[\"also_valid\"] = 42"));
}

#[test]
fn string_escaping() {
    let mut table = parse(
        r#"return {
    ["text"] = "hello",
}"#,
    );
    put_str(
        &mut table,
        "text",
        LuaValue::Str("line1\nline2\\end\"quoted\"".to_string()),
    );
    let content = serialize_table(&table, PATH).expect("serializes");
    assert!(content.contains("\"line1\\\nline2\\\\end\\\"quoted\\\"\""));
}

#[test]
fn empty_table_serializes_correctly() {
    let table = parse(
        r#"return {
    ["empty"] = {},
    ["data"] = 1,
}"#,
    );
    let content = serialize_table(&table, PATH).expect("serializes");
    assert!(content.contains("[\"empty\"] = {}"));
}

#[test]
fn backup_path_appends_old_extension() {
    assert_eq!(backup_path("/tmp/metadata.epub.lua"), "/tmp/metadata.epub.lua.old");
}

#[test]
fn backup_path_of_name_without_extension() {
    assert_eq!(backup_path("/tmp/metadata"), "/tmp/metadata..old");
}

#[test]
fn serializes_whole_file_exactly() {
    let table = parse(
        r#"return {
    ["doc_props"] = { ["title"] = "A", ["pages"] = 12 },
    ["flag"] = true,
    ["ratio"] = 0.5,
    ["whole"] = 2.0,
    [3] = false,
}"#,
    );
    let content = serialize_table(&table, "/x/m.lua").expect("serializes");
    let expected = "-- /x/m.lua\nreturn {\n    [3] = false,\n    [\"doc_props\"] = {\n        [\"pages\"] = 12,\n        [\"title\"] = \"A\",\n    },\n    [\"flag\"] = true,\n    [\"ratio\"] = 0.5,\n    [\"whole\"] = 2,\n}\n";
    assert_eq!(content, expected);
}

#[test]
fn nil_and_function_values_are_dropped() {
    let table = vec![
        (LuaKey::Str("gone".to_string()), LuaValue::Nil),
        (LuaKey::Str("fn".to_string()), LuaValue::Unsupported),
        (LuaKey::Str("kept".to_string()), LuaValue::Integer(1)),
        (LuaKey::Other, LuaValue::Integer(9)),
    ];
    let content = serialize_table(&table, "p").expect("serializes");
    assert_eq!(content, "-- p\nreturn {\n    [\"kept\"] = 1,\n}\n");
}

#[test]
fn carriage_return_and_nul_are_escaped() {
    let table = vec![(LuaKey::Str("k".to_string()), LuaValue::Str("a\rb\0c".to_string()))];
    let content = serialize_table(&table, "p").expect("serializes");
    assert!(content.contains("[\"k\"] = \"a\\rb\\0c\","));
}

#[test]
fn nul_before_a_digit_is_written_in_three_digits() {
    let table = vec![(LuaKey::Str("k".to_string()), LuaValue::Str("a\u{0}1\u{0}x".to_string()))];
    let content = serialize_table(&table, "p").expect("serializes");
    assert!(content.contains("[\"k\"] = \"a\\0001\\0x\","));
    let lua = mlua::Lua::new();
    let table: mlua::Table = lua.load(content.as_str()).eval().expect("evaluates");
    let back: String = table.get("k").expect("has k");
    assert_eq!(back, "a\u{0}1\u{0}x");
}

#[test]
fn negative_integer_keys_sort_first() {
    let table = vec![
        (LuaKey::Int(10), LuaValue::Integer(1)),
        (LuaKey::Int(-3), LuaValue::Integer(2)),
    ];
    let content = serialize_table(&table, "p").expect("serializes");
    assert_eq!(content, "-- p\nreturn {\n    [-3] = 2,\n    [10] = 1,\n}\n");
}

#[test]
fn non_utf8_string_value_is_an_error() {
    let table = vec![(LuaKey::Str("k".to_string()), LuaValue::BadStr)];
    assert_eq!(serialize_table(&table, "p"), Err(LuaWriteError::NonUtf8String));
}

#[test]
fn non_utf8_key_is_an_error() {
    let table = vec![(LuaKey::BadStr, LuaValue::Integer(1))];
    assert_eq!(serialize_table(&table, "p"), Err(LuaWriteError::NonUtf8Key));
}

#[test]
fn too_deep_nesting_is_an_error() {
    let mut v = LuaValue::Integer(1);
    for _ in 0..70 {
        v = LuaValue::Table(vec![(LuaKey::Int(1), v)]);
    }
    let table = vec![(LuaKey::Str("deep".to_string()), v)];
    assert_eq!(serialize_table(&table, "p"), Err(LuaWriteError::DepthExceeded));
}

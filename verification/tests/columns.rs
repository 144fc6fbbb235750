//! What a query hands out of stored values.

use hcom::columns::{Column, read_column, read_integer_column, read_leading_integer, write_json};
use hcom::json::{Json, Member};
use rusqlite::Connection;

fn nested() -> Json {
    Json::Object(vec![
        Member { key: "a\"".to_string(), value: Json::Array(vec![Json::Null, Json::Bool(true)]) },
        Member { key: "b".to_string(), value: Json::text("x\u{1}\t/\u{e9}") },
        Member { key: "c".to_string(), value: Json::Real("1.5".to_string()) },
        Member { key: "d".to_string(), value: Json::Object(Vec::new()) },
    ])
}

#[test]
fn composites_are_handed_out_as_json() {
    let text = write_json(&nested());
    assert_eq!(
        text,
        "{\"a\\\"\":[null,true],\"b\":\"x\\u0001\\t/\u{e9}\",\"c\":1.5,\"d\":{}}"
    );
    let parsed: serde_json::Value = serde_json::from_str(&text).unwrap();
    assert_eq!(parsed.to_string(), text);
    let conn = Connection::open_in_memory().unwrap();
    let extracted: String = conn
        .query_row(
            "SELECT json_extract(?1, '$.v')",
            (format!("{{\"v\":{text}}}"),),
            |row| row.get(0),
        )
        .unwrap();
    assert_eq!(extracted, text);
    assert!(matches!(read_column(Some(&nested())), Column::Text(given) if given == text));
    assert!(matches!(read_column(Some(&Json::text("t"))), Column::Text(given) if given == "t"));
    assert!(matches!(read_column(Some(&Json::Null)), Column::Absent));
    assert!(matches!(read_column(None), Column::Absent));
    assert!(matches!(read_column(Some(&Json::Int(1))), Column::NotText));
}

#[test]
fn numbers_and_texts_are_written_as_json() {
    for number in [0.5, -2.0, 1e16, 1.152921504606847e18, 1e22, 1e-7, 1e308, 5e-324] {
        let written = serde_json::to_string(&number).unwrap();
        assert_eq!(write_json(&Json::Real(written.clone())), written);
    }
    for number in [0, -1, i64::MAX, i64::MIN] {
        assert_eq!(write_json(&Json::Int(number)), serde_json::to_string(&number).unwrap());
    }
    let all: String = (0u8..=0x7f).map(char::from).chain("\u{80}\u{2028}\u{1f600}".chars()).collect();
    assert_eq!(write_json(&Json::text(&all)), serde_json::to_string(&all).unwrap());
}

#[test]
fn texts_are_cast_as_the_database_does() {
    let conn = Connection::open_in_memory().unwrap();
    for text in [
        "",
        "5",
        " \t\n5x",
        "-7.9",
        "+3",
        "- 3",
        "--3",
        "abc",
        "1e3",
        "9223372036854775807",
        "9223372036854775808",
        "99999999999999999999999",
        "-9223372036854775808",
        "-9223372036854775809",
        "-99999999999999999999999",
        "\u{a0}4",
        "[5]",
    ] {
        let cast: i64 = conn
            .query_row("SELECT CAST(?1 AS INTEGER)", (text,), |row| row.get(0))
            .unwrap();
        assert_eq!(read_leading_integer(text), cast, "{text:?}");
    }
}

#[test]
fn values_are_cast_as_the_database_does() {
    let conn = Connection::open_in_memory().unwrap();
    for (value, text) in [
        (Json::Null, "null"),
        (Json::Bool(true), "true"),
        (Json::Bool(false), "false"),
        (Json::Int(-4), "-4"),
        (Json::Real("2.9".to_string()), "2.9"),
        (Json::Real("-2.9".to_string()), "-2.9"),
        (Json::Real("1.152921504606847e18".to_string()), "1.152921504606847e18"),
        (Json::Real("-1.152921504606847e+18".to_string()), "-1.152921504606847e+18"),
        (Json::Real("9007199254740993.0".to_string()), "9007199254740993.0"),
        (Json::Real("9007199254740995.0".to_string()), "9007199254740995.0"),
        (Json::Real("9.223372036854775e18".to_string()), "9.223372036854775e18"),
        (Json::Real("9223372036854775808".to_string()), "9223372036854775808"),
        (Json::Real("18446744073709551615".to_string()), "18446744073709551615"),
        (Json::Real("-1e19".to_string()), "-1e19"),
        (Json::Real("1e16".to_string()), "1e16"),
        (Json::Real("1.25e1".to_string()), "1.25e1"),
        (Json::Real("1e22".to_string()), "1e22"),
        (Json::Real("1e308".to_string()), "1e308"),
        (Json::Real("1e-7".to_string()), "1e-7"),
        (Json::Real("123.5e-1".to_string()), "123.5e-1"),
        (Json::Real("5e-324".to_string()), "5e-324"),
        (Json::Real("-0.0".to_string()), "-0.0"),
        (Json::text("12 monkeys"), "\"12 monkeys\""),
        (Json::Array(vec![Json::Int(1)]), "[1]"),
        (Json::Object(Vec::new()), "{}"),
    ] {
        let cast: Option<i64> = conn
            .query_row(
                "SELECT CAST(json_extract(?1, '$.id') AS INTEGER)",
                (format!("{{\"id\":{text}}}"),),
                |row| row.get(0),
            )
            .unwrap();
        assert_eq!(read_integer_column(Some(&value)), cast, "{text}");
    }
    assert_eq!(read_integer_column(None), None);
}

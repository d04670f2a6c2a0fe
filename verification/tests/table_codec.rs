use mention_pipeline::mentions::{build_mentions, parse_pings};
use mention_pipeline::record::MyUser;
use mention_pipeline::table::{encode_table, parse_table_text};
use mention_pipeline::RunError;

fn user(id: i64, name: &str, username: Option<&str>) -> MyUser {
    MyUser { id, full_name: name.to_string(), tg_username: username.map(String::from) }
}

#[test]
fn encode_exact_text() {
    let records = vec![user(1, "Ann", Some("ann")), user(-2, "Bob", None)];
    let text = encode_table(&records);
    assert_eq!(text, "id,full_name,tg_username\n1,\"Ann\",\"ann\"\n-2,\"Bob\",\n");
}

#[test]
fn encode_escapes_quotes_commas_and_newlines() {
    let records = vec![user(3, "say \"hi\", twice\nplease", None)];
    let text = encode_table(&records);
    assert_eq!(text, "id,full_name,tg_username\n3,\"say \"\"hi\"\", twice\nplease\",\n");
}

#[test]
fn round_trip_empty_snapshot() {
    let records: Vec<MyUser> = vec![];
    let text = encode_table(&records);
    assert_eq!(text, "id,full_name,tg_username\n");
    let back = parse_table_text(&text).unwrap();
    assert_eq!(back.len(), 0);
    assert_eq!(build_mentions(&back, "@self"), "");
}

#[test]
fn round_trip_keeps_records_and_order() {
    let records = vec![
        user(1, "Ann Lee", None),
        user(i64::MIN, "a,b", Some("ab")),
        user(42, "quo\"te", None),
        user(7, "line\nbreak", Some("lb")),
        user(9, "", None),
        user(i64::MAX, "\u{1F600} unicode", Some("emoji_fan")),
    ];
    let text = encode_table(&records);
    let back = parse_table_text(&text).unwrap();
    assert_eq!(back, records);
}

#[test]
fn round_trip_mentions_in_order() {
    let records = vec![user(1, "A", Some("a")), user(2, "B", None), user(3, "C", Some("c"))];
    let text = encode_table(&records);
    let pings = parse_pings(&text, "").unwrap();
    assert_eq!(pings, "@a @2(B) @c ");
}

#[test]
fn parse_rejects_missing_or_wrong_header() {
    assert_eq!(parse_table_text(""), Err(RunError::RecordReadError));
    assert_eq!(parse_table_text("id,full name,tg_username\n"), Err(RunError::RecordReadError));
    assert_eq!(parse_table_text("id,full_name,tg_username"), Err(RunError::RecordReadError));
}

#[test]
fn parses_minimally_quoted_tables() {
    let text = "id,full_name,tg_username\n1,Bob,bob\n2,Self Bot,self_bot\n42,Ann Lee,\n";
    let records = parse_table_text(text).unwrap();
    assert_eq!(
        records,
        vec![user(1, "Bob", Some("bob")), user(2, "Self Bot", Some("self_bot")), user(42, "Ann Lee", None)]
    );
    let pings = parse_pings(text, "@self_bot").unwrap();
    assert_eq!(pings, "@bob @42(Ann Lee) ");
}

#[test]
fn parses_mixed_quoting() {
    let text = "id,full_name,tg_username\n1,\"a,b\",x\n2,plain,\"q\"\n3,,\n";
    let records = parse_table_text(text).unwrap();
    assert_eq!(
        records,
        vec![user(1, "a,b", Some("x")), user(2, "plain", Some("q")), user(3, "", None)]
    );
}

#[test]
fn parse_rejects_malformed_rows() {
    let h = "id,full_name,tg_username\n";
    // id is not a number
    assert!(parse_table_text(&format!("{h}x,\"a\",\n")).is_err());
    // a quote inside an unquoted name field
    assert!(parse_table_text(&format!("{h}1,a\"b,\n")).is_err());
    // a quote inside an unquoted username field
    assert!(parse_table_text(&format!("{h}1,a,b\"c\n")).is_err());
    // unterminated quoted field
    assert!(parse_table_text(&format!("{h}1,\"a,\n")).is_err());
    // missing line feed on the last row
    assert!(parse_table_text(&format!("{h}1,\"a\",")).is_err());
    // an empty quoted username is not a username
    assert!(parse_table_text(&format!("{h}1,\"a\",\"\"\n")).is_err());
    // trailing garbage after the username column
    assert!(parse_table_text(&format!("{h}1,\"a\",\"u\"x\n")).is_err());
}

#[test]
fn parse_rejects_ids_out_of_range() {
    let h = "id,full_name,tg_username\n";
    assert!(parse_table_text(&format!("{h}9223372036854775807,\"a\",\n")).is_ok());
    assert!(parse_table_text(&format!("{h}9223372036854775808,\"a\",\n")).is_err());
    assert!(parse_table_text(&format!("{h}-9223372036854775808,\"a\",\n")).is_ok());
    assert!(parse_table_text(&format!("{h}-9223372036854775809,\"a\",\n")).is_err());
    assert!(parse_table_text(&format!("{h}12345678901234567890123,\"a\",\n")).is_err());
}

#[test]
fn self_filter_excludes_only_the_configured_mention() {
    let records = vec![
        user(1, "Bob", Some("bob")),
        user(2, "Self", Some("self_bot")),
        user(42, "Ann Lee", None),
    ];
    assert_eq!(records[0].get_mention(), "@bob");
    assert_eq!(records[1].get_mention(), "@self_bot");
    assert_eq!(records[2].get_mention(), "@42(Ann Lee)");
    let built = build_mentions(&records, "@self_bot");
    assert_eq!(built, "@bob @42(Ann Lee) ");
}

#[test]
fn self_filter_does_not_deduplicate() {
    let records = vec![user(1, "B", Some("bob")), user(1, "B", Some("bob"))];
    assert_eq!(build_mentions(&records, "@x"), "@bob @bob ");
}

use mention_pipeline::record::{ChatRef, MyUser};
use mention_pipeline::numfmt::{i64_to_string, u64_to_string};
use mention_pipeline::record::filepath_from_chat;

fn user(id: i64, name: &str, username: Option<&str>) -> MyUser {
    MyUser { id, full_name: name.to_string(), tg_username: username.map(String::from) }
}

#[test]
fn mention_with_username() {
    let u = user(7, "Bob Smith", Some("bob"));
    assert_eq!(u.get_mention(), "@bob");
}

#[test]
fn mention_without_username() {
    let u = user(42, "Ann Lee", None);
    assert_eq!(u.get_mention(), "@42(Ann Lee)");
}

#[test]
fn mention_with_empty_name() {
    let u = user(5, "", None);
    assert_eq!(u.get_mention(), "@5()");
}

#[test]
fn mention_with_negative_id() {
    let u = user(-1001234567890, "Group Ghost", None);
    assert_eq!(u.get_mention(), "@-1001234567890(Group Ghost)");
}

#[test]
fn mention_with_extreme_ids() {
    let low = user(i64::MIN, "Low", None);
    assert_eq!(low.get_mention(), "@-9223372036854775808(Low)");
    let high = user(i64::MAX, "High", None);
    assert_eq!(high.get_mention(), "@9223372036854775807(High)");
}

#[test]
fn decimal_rendering() {
    assert_eq!(u64_to_string(0), "0");
    assert_eq!(u64_to_string(25), "25");
    assert_eq!(u64_to_string(18446744073709551615), "18446744073709551615");
    assert_eq!(i64_to_string(0), "0");
    assert_eq!(i64_to_string(-1), "-1");
    assert_eq!(i64_to_string(i64::MIN), "-9223372036854775808");
    assert_eq!(i64_to_string(i64::MAX), "9223372036854775807");
}

#[test]
fn filepath_is_keyed_by_chat_id() {
    let chat = ChatRef { id: 123, name: "emoji name \u{1F600}/x".to_string(), username: None };
    assert_eq!(filepath_from_chat(&chat), "csv/123.csv");
    let negative = ChatRef { id: -100500, name: "g".to_string(), username: None };
    assert_eq!(filepath_from_chat(&negative), "csv/-100500.csv");
}

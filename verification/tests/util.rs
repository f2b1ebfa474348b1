use adb::util;

#[test]
fn consume_prefix() {
    assert_eq!(util::consume_prefix("foobar", "bar"), None);
    assert_eq!(util::consume_prefix("foobar", "foobar"), Some(""));
    assert_eq!(util::consume_prefix("foobar", "foo"), Some("bar"));
    assert_eq!(util::consume_prefix("foobar", ""), Some("foobar"));
}

#[test]
fn split_once() {
    assert_eq!(util::split_once("foo,bar,baz", "foo,bar,baz"), Some(("", "")));
    assert_eq!(util::split_once("foo,bar,baz", ","), Some(("foo", "bar,baz")));
    assert_eq!(util::split_once("foo,bar,baz", "!"), None);
}

#[test]
fn rsplit_once() {
    assert_eq!(util::rsplit_once("foo,bar,baz", "foo,bar,baz"), Some(("", "")));
    assert_eq!(util::rsplit_once("foo,bar,baz", ","), Some(("baz", "foo,bar")));
    assert_eq!(util::rsplit_once("foo,bar,baz", "!"), None);
}

#[test]
fn find_and_trim() {
    assert_eq!(util::find_char("a:b:c", ':'), Some(1));
    assert_eq!(util::find_char("abc", ':'), None);
    assert_eq!(util::starts_with("foobar", "foo"), true);
    assert_eq!(util::starts_with("foobar", "bar"), false);
    assert_eq!(util::trim_start_spaces("   x y "), "x y ");
    assert_eq!(util::trim_start_spaces("xy"), "xy");
    assert_eq!(util::trim_start_spaces("   "), "");
}

use clockcfg::digits::{i64_to_string, parse_i64};
use clockcfg::edit::{visible_tail, IntEditState, ModalKey, ModalOutcome, TextEditState};
use clockcfg::{Config, Entry, Value};

#[test]
fn text_editor_appends_printable_characters_up_to_the_cap() {
    let mut st = TextEditState::start("ab", Some(3));
    assert_eq!(st.press(ModalKey::Char('c')), ModalOutcome::Pending);
    assert_eq!(st.buffer, "abc");
    st.press(ModalKey::Char('d'));
    assert_eq!(st.buffer, "abc");
}

#[test]
fn text_editor_without_a_cap_uses_the_large_default() {
    let st = TextEditState::start("x", None);
    assert_eq!(st.limit, 4096);
}

#[test]
fn text_editor_backspace_removes_the_last_character() {
    let mut st = TextEditState::start("ab", None);
    st.press(ModalKey::Backspace);
    assert_eq!(st.buffer, "a");
    st.press(ModalKey::Backspace);
    st.press(ModalKey::Backspace);
    assert_eq!(st.buffer, "");
}

#[test]
fn text_editor_ignores_unprintable_characters() {
    let mut st = TextEditState::start("", None);
    st.press(ModalKey::Char('\u{0007}'));
    assert_eq!(st.buffer, "");
    st.press(ModalKey::Char(' '));
    st.press(ModalKey::Char('~'));
    assert_eq!(st.buffer, " ~");
}

#[test]
fn text_editor_confirm_commits_and_cancel_discards() {
    let mut cfg = Config {
        filename: String::from("t.json"),
        entries: vec![Entry {
            key: String::from("k"),
            value: Value::Text { value: String::from("old"), maximum_size: None },
        }],
    };
    let mut st = TextEditState::start("old", None);
    st.press(ModalKey::Char('!'));
    assert_eq!(st.press(ModalKey::Confirm), ModalOutcome::Commit);
    assert!(cfg.commit_text_at(0, &st.buffer));
    assert_eq!(cfg.get_string("k"), Some(String::from("old!")));

    let mut st = TextEditState::start("old!", None);
    st.press(ModalKey::Backspace);
    assert_eq!(st.press(ModalKey::Cancel), ModalOutcome::Discard);
    assert_eq!(cfg.get_string("k"), Some(String::from("old!")));
}

#[test]
fn commit_helpers_reject_wrong_kinds_and_positions() {
    let mut cfg = Config {
        filename: String::from("t.json"),
        entries: vec![Entry { key: String::from("i"), value: Value::Integer { value: 3 } }],
    };
    assert!(!cfg.commit_text_at(0, "x"));
    assert!(!cfg.commit_text_at(5, "x"));
    assert!(cfg.commit_int_at(0, -12));
    assert_eq!(cfg.get_int("i"), -12);
    assert!(!cfg.commit_int_at(5, 1));
}

#[test]
fn int_editor_accepts_digits_and_one_leading_minus() {
    let mut st = IntEditState::start(0);
    st.press(ModalKey::Backspace);
    assert_eq!(st.buffer, "");
    st.press(ModalKey::Char('-'));
    st.press(ModalKey::Char('-'));
    st.press(ModalKey::Char('4'));
    st.press(ModalKey::Char('2'));
    st.press(ModalKey::Char('x'));
    assert_eq!(st.buffer, "-42");
    assert_eq!(st.commit_value(7), -42);
}

#[test]
fn int_editor_caps_the_buffer_at_thirty_two_characters() {
    let mut st = IntEditState::start(0);
    st.press(ModalKey::Backspace);
    for _ in 0..40 {
        st.press(ModalKey::Char('9'));
    }
    assert_eq!(st.buffer.len(), 32);
}

#[test]
fn int_editor_commits_zero_for_empty_or_lone_minus() {
    let mut st = IntEditState::start(5);
    st.press(ModalKey::Backspace);
    assert_eq!(st.commit_value(5), 0);
    st.press(ModalKey::Char('-'));
    assert_eq!(st.buffer, "-");
    assert_eq!(st.commit_value(5), 0);
}

#[test]
fn int_editor_keeps_the_previous_value_when_the_buffer_overflows() {
    let mut st = IntEditState::start(0);
    st.press(ModalKey::Backspace);
    for _ in 0..20 {
        st.press(ModalKey::Char('9'));
    }
    assert_eq!(st.commit_value(123), 123);
}

#[test]
fn int_editor_starts_from_the_current_value() {
    let st = IntEditState::start(-310);
    assert_eq!(st.buffer, "-310");
    assert_eq!(st.commit_value(0), -310);
}

#[test]
fn parse_i64_handles_signs_ranges_and_junk() {
    assert_eq!(parse_i64("0"), Some(0));
    assert_eq!(parse_i64("-0"), Some(0));
    assert_eq!(parse_i64("9223372036854775807"), Some(i64::MAX));
    assert_eq!(parse_i64("-9223372036854775808"), Some(i64::MIN));
    assert_eq!(parse_i64("9223372036854775808"), None);
    assert_eq!(parse_i64("-9223372036854775809"), None);
    assert_eq!(parse_i64(""), None);
    assert_eq!(parse_i64("-"), None);
    assert_eq!(parse_i64("12a"), None);
    assert_eq!(parse_i64("+12"), None);
}

#[test]
fn i64_to_string_renders_exact_decimals() {
    assert_eq!(i64_to_string(0), "0");
    assert_eq!(i64_to_string(305), "305");
    assert_eq!(i64_to_string(-1), "-1");
    assert_eq!(i64_to_string(i64::MIN), "-9223372036854775808");
    assert_eq!(i64_to_string(i64::MAX), "9223372036854775807");
}

#[test]
fn visible_tail_anchors_to_the_most_recent_characters() {
    assert_eq!(visible_tail("abcdef", 4), "cdef");
    assert_eq!(visible_tail("abc", 4), "abc");
    assert_eq!(visible_tail("abc", 0), "");
}

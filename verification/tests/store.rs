use clockcfg::{Config, Entry, Value};

fn scenario() -> Config {
    Config {
        filename: String::from("test.json"),
        entries: vec![
            Entry { key: String::from("A"), value: Value::Category },
            Entry {
                key: String::from("x"),
                value: Value::Choice {
                    options: vec![String::from("a"), String::from("b"), String::from("c")],
                    selected: 0,
                },
            },
            Entry {
                key: String::from("name"),
                value: Value::Text { value: String::from("hi"), maximum_size: Some(5) },
            },
            Entry { key: String::from("count"), value: Value::Integer { value: -7 } },
            Entry { key: String::from("flag"), value: Value::Boolean { value: true } },
        ],
    }
}

#[test]
fn get_string_returns_each_kind_in_string_form() {
    let cfg = scenario();
    assert_eq!(cfg.get_string("name"), Some(String::from("hi")));
    assert_eq!(cfg.get_string("x"), Some(String::from("a")));
    assert_eq!(cfg.get_string("count"), Some(String::from("-7")));
    assert_eq!(cfg.get_string("flag"), Some(String::from("true")));
    assert_eq!(cfg.get_string("A"), None);
    assert_eq!(cfg.get_string("missing"), None);
}

#[test]
fn get_option_reads_selection_and_defaults_to_zero() {
    let mut cfg = scenario();
    assert_eq!(cfg.get_option("x"), 0);
    cfg.set_option("x", 2);
    assert_eq!(cfg.get_option("x"), 2);
    assert_eq!(cfg.get_option("name"), 0);
    assert_eq!(cfg.get_option("missing"), 0);
}

#[test]
fn get_int_and_get_bool_default_on_mismatch() {
    let cfg = scenario();
    assert_eq!(cfg.get_int("count"), -7);
    assert_eq!(cfg.get_int("name"), 0);
    assert_eq!(cfg.get_int("missing"), 0);
    assert!(cfg.get_bool("flag"));
    assert!(!cfg.get_bool("count"));
    assert!(!cfg.get_bool("missing"));
}

#[test]
fn set_option_rejects_negative_index() {
    let mut cfg = scenario();
    assert_eq!(cfg.set_option("x", -1), None);
    assert_eq!(cfg.get_option("x"), 0);
}

#[test]
fn set_option_rejects_index_past_options() {
    let mut cfg = scenario();
    assert_eq!(cfg.set_option("x", 3), None);
    assert_eq!(cfg.get_option("x"), 0);
}

#[test]
fn set_option_accepts_last_index_and_reports_it() {
    let mut cfg = scenario();
    assert_eq!(cfg.set_option("x", 2), Some(2));
    assert_eq!(cfg.get_string("x"), Some(String::from("c")));
}

#[test]
fn set_option_rejects_kind_mismatch_and_missing_key() {
    let mut cfg = scenario();
    assert_eq!(cfg.set_option("count", 0), None);
    assert_eq!(cfg.set_option("missing", 0), None);
    assert_eq!(cfg.get_int("count"), -7);
}

#[test]
fn set_string_accepts_length_exactly_at_cap() {
    let mut cfg = scenario();
    assert_eq!(cfg.set_string("name", "12345"), Some(true));
    assert_eq!(cfg.get_string("name"), Some(String::from("12345")));
}

#[test]
fn set_string_rejects_length_one_over_cap() {
    let mut cfg = scenario();
    assert_eq!(cfg.set_string("name", "123456"), None);
    assert_eq!(cfg.get_string("name"), Some(String::from("hi")));
}

#[test]
fn set_string_with_one_char_cap_rejects_two_chars() {
    let mut cfg = Config {
        filename: String::from("t.json"),
        entries: vec![Entry {
            key: String::from("k"),
            value: Value::Text { value: String::from("c"), maximum_size: Some(1) },
        }],
    };
    assert_eq!(cfg.set_string("k", "ab"), None);
    assert_eq!(cfg.get_string("k"), Some(String::from("c")));
    assert_eq!(cfg.set_string("k", "z"), Some(true));
    assert_eq!(cfg.get_string("k"), Some(String::from("z")));
}

#[test]
fn set_string_without_cap_accepts_long_text() {
    let mut cfg = Config {
        filename: String::from("t.json"),
        entries: vec![Entry {
            key: String::from("k"),
            value: Value::Text { value: String::new(), maximum_size: None },
        }],
    };
    let long = "x".repeat(10000);
    assert_eq!(cfg.set_string("k", &long), Some(true));
    assert_eq!(cfg.get_string("k"), Some(long));
}

#[test]
fn set_int_and_set_bool_write_matching_kinds_only() {
    let mut cfg = scenario();
    assert_eq!(cfg.set_int("count", 42), Some(42));
    assert_eq!(cfg.get_int("count"), 42);
    assert_eq!(cfg.set_int("flag", 1), None);
    assert_eq!(cfg.set_bool("flag", false), Some(false));
    assert!(!cfg.get_bool("flag"));
    assert_eq!(cfg.set_bool("count", true), None);
}

#[test]
fn lookup_takes_the_first_matching_key() {
    let mut cfg = Config {
        filename: String::from("t.json"),
        entries: vec![
            Entry { key: String::from("k"), value: Value::Integer { value: 1 } },
            Entry { key: String::from("k"), value: Value::Integer { value: 2 } },
        ],
    };
    assert_eq!(cfg.get_int("k"), 1);
    cfg.set_int("k", 9);
    assert_eq!(cfg.get_int("k"), 9);
    match &cfg.entries[1].value {
        Value::Integer { value } => assert_eq!(*value, 2),
        _ => panic!("second entry changed kind"),
    }
}

#[test]
fn default_schema_has_expected_fields() {
    let cfg = Config::default("clock.json");
    assert_eq!(cfg.filename, "clock.json");
    assert_eq!(cfg.entries.len(), 23);
    assert_eq!(cfg.get_int("clock width"), 5);
    assert_eq!(cfg.get_int("local time offset"), 0);
    assert!(cfg.get_bool("continuous minutes"));
    assert_eq!(cfg.get_option("clock border"), 1);
    assert_eq!(cfg.get_string("background color"), Some(String::from("BLACK")));
    assert_eq!(cfg.get_string("circle color"), Some(String::from("GREEN")));
    assert_eq!(cfg.get_string("hour hand label"), Some(String::from("HOURS")));
    assert_eq!(cfg.get_string("quit"), Some(String::from("q")));
    assert_eq!(cfg.get_string("Colors"), None);
}

use clockcfg::{Config, Entry, Value};

#[test]
fn printing_and_reparsing_the_default_schema_reproduces_it() {
    let cfg = Config::default("clock.json");
    let text = cfg.to_document();
    let back = Config::from_document(&text).expect("printed document must parse");
    assert_eq!(back.to_document(), text);
    assert_eq!(back.filename, "clock.json");
    assert_eq!(back.entries.len(), 23);
    assert_eq!(back.get_string("circle color"), Some(String::from("GREEN")));
    assert_eq!(back.get_int("clock width"), 5);
}

#[test]
fn printing_and_reparsing_keeps_escapes_and_odd_text() {
    let mut cfg = Config {
        filename: String::from("a \"b\"\\c\n\t.json"),
        entries: vec![Entry {
            key: String::from("we\tird \"key\""),
            value: Value::Text { value: String::from("line\r\nbreak\\"), maximum_size: None },
        }],
    };
    let text = cfg.to_document();
    let back = Config::from_document(&text).expect("printed document must parse");
    assert_eq!(back.filename, cfg.filename);
    assert_eq!(back.get_string("we\tird \"key\""), cfg.get_string("we\tird \"key\""));
    let _ = cfg.set_string("we\tird \"key\"", "x");
}

#[test]
fn a_pretty_printed_document_with_blank_space_parses() {
    let text = "\n{\n  \"filename\": \"f.json\",\n  \"entries\": [\n    {\n      \"key\": \"numbers\",\n      \"value\": {\n        \"kind\": \"choice\",\n        \"options\": [\n          \"no numbers\",\n          \"stars\"\n        ],\n        \"selected\": 1\n      }\n    },\n    {\n      \"key\": \"label\",\n      \"value\": {\n        \"kind\": \"text\",\n        \"value\": \"hi\",\n        \"maximum_size\": 32\n      }\n    }\n  ]\n}\n";
    let cfg = Config::from_document(text).expect("document must parse");
    assert_eq!(cfg.filename, "f.json");
    assert_eq!(cfg.get_option("numbers"), 1);
    assert_eq!(cfg.get_string("numbers"), Some(String::from("stars")));
    assert_eq!(cfg.get_string("label"), Some(String::from("hi")));
}

#[test]
fn members_after_the_kind_tag_may_come_in_any_order() {
    let text = "{\"entries\":[{\"value\":{\"kind\":\"choice\",\"selected\":0,\"options\":[\"a\"]},\"key\":\"x\"}],\"filename\":\"f\"}";
    let cfg = Config::from_document(text).expect("document must parse");
    assert_eq!(cfg.get_string("x"), Some(String::from("a")));
}

#[test]
fn a_null_or_absent_cap_reads_as_no_cap() {
    let with_null = "{\"filename\":\"f\",\"entries\":[{\"key\":\"t\",\"value\":{\"kind\":\"text\",\"value\":\"v\",\"maximum_size\":null}}]}";
    let cfg = Config::from_document(with_null).expect("document must parse");
    match &cfg.entries[0].value {
        Value::Text { maximum_size, .. } => assert_eq!(*maximum_size, None),
        _ => panic!("wrong kind"),
    }
    let absent = "{\"filename\":\"f\",\"entries\":[{\"key\":\"t\",\"value\":{\"kind\":\"text\",\"value\":\"v\"}}]}";
    let cfg = Config::from_document(absent).expect("document must parse");
    match &cfg.entries[0].value {
        Value::Text { maximum_size, .. } => assert_eq!(*maximum_size, None),
        _ => panic!("wrong kind"),
    }
}

#[test]
fn malformed_documents_are_rejected() {
    assert!(Config::from_document("").is_none());
    assert!(Config::from_document("not json").is_none());
    assert!(Config::from_document("{\"filename\":\"f\"}").is_none());
    assert!(Config::from_document("{\"filename\":\"f\",\"entries\":[]} trailing").is_none());
    assert!(Config::from_document(
        "{\"filename\":\"f\",\"entries\":[{\"key\":\"x\",\"value\":{\"kind\":\"rainbow\"}}]}",
    )
    .is_none());
}

#[test]
fn a_selection_past_the_options_is_rejected() {
    let text = "{\"filename\":\"f\",\"entries\":[{\"key\":\"x\",\"value\":{\"kind\":\"choice\",\"options\":[\"a\"],\"selected\":7}}]}";
    assert!(Config::from_document(text).is_none());
}

#[test]
fn an_integer_outside_the_signed_64_bit_range_is_rejected() {
    let text = "{\"filename\":\"f\",\"entries\":[{\"key\":\"i\",\"value\":{\"kind\":\"integer\",\"value\":9223372036854775808}}]}";
    assert!(Config::from_document(text).is_none());
    let ok = "{\"filename\":\"f\",\"entries\":[{\"key\":\"i\",\"value\":{\"kind\":\"integer\",\"value\":-9223372036854775808}}]}";
    let cfg = Config::from_document(ok).expect("document must parse");
    assert_eq!(cfg.get_int("i"), i64::MIN);
}

#[test]
fn load_document_falls_back_to_the_default_schema() {
    let cfg = Config::load_document("home.json", None);
    assert_eq!(cfg.filename, "home.json");
    assert_eq!(cfg.entries.len(), 23);
    let cfg = Config::load_document("home.json", Some("garbage"));
    assert_eq!(cfg.filename, "home.json");
    assert_eq!(cfg.entries.len(), 23);
    let stored = Config::default("stored.json").to_document();
    let cfg = Config::load_document("home.json", Some(&stored));
    assert_eq!(cfg.filename, "stored.json");
}

#[test]
fn the_printed_document_is_plain_json_to_other_readers() {
    let cfg = Config::default("clock.json");
    let text = cfg.to_document();
    let v: serde_json::Value = serde_json::from_str(&text).expect("other readers must accept it");
    assert_eq!(v["filename"], serde_json::Value::String(String::from("clock.json")));
    let entries = v["entries"].as_array().expect("entries is an array");
    assert_eq!(entries.len(), 23);
    assert_eq!(entries[0]["key"], serde_json::Value::String(String::from("Colors")));
    assert_eq!(
        entries[0]["value"]["kind"],
        serde_json::Value::String(String::from("category"))
    );
    assert_eq!(entries[12]["value"]["selected"], serde_json::Value::from(1u64));
}

#[test]
fn a_document_printed_by_another_writer_parses_the_same() {
    let cfg = Config::default("clock.json");
    let text = cfg.to_document();
    let v: serde_json::Value = serde_json::from_str(&text).unwrap();
    let pretty = serde_json::to_string_pretty(&v).unwrap();
    let back = Config::from_document(&pretty).expect("pretty form must parse");
    assert_eq!(back.to_document(), text);
}

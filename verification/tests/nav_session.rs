use clockcfg::session::{SessionAction, SessionKey};
use clockcfg::{Config, Entry, Value};

fn choice(options: &[&str], selected: usize) -> Value {
    Value::Choice {
        options: options.iter().map(|s| String::from(*s)).collect(),
        selected,
    }
}

fn scenario() -> Config {
    Config {
        filename: String::from("t.json"),
        entries: vec![
            Entry { key: String::from("A"), value: Value::Category },
            Entry { key: String::from("x"), value: choice(&["a", "b", "c"], 0) },
        ],
    }
}

#[test]
fn moving_down_at_the_bottom_boundary_stays_put() {
    let cfg = scenario();
    assert_eq!(cfg.move_down(1), 1);
}

#[test]
fn moving_up_never_lands_on_a_category() {
    let cfg = scenario();
    assert_eq!(cfg.move_up(1), 1);
}

#[test]
fn three_enters_cycle_a_three_option_choice_back_to_start() {
    let mut cfg = scenario();
    for _ in 0..3 {
        let out = cfg.session_step(1, SessionKey::Enter, false);
        assert_eq!(out.selected, 1);
        assert_eq!(out.action, SessionAction::Redraw);
    }
    assert_eq!(cfg.get_option("x"), 0);
    assert_eq!(cfg.get_string("x"), Some(String::from("a")));
}

#[test]
fn enter_steps_selection_through_each_option() {
    let mut cfg = scenario();
    cfg.session_step(1, SessionKey::Enter, false);
    assert_eq!(cfg.get_option("x"), 1);
    cfg.session_step(1, SessionKey::Enter, false);
    assert_eq!(cfg.get_option("x"), 2);
    cfg.session_step(1, SessionKey::Enter, false);
    assert_eq!(cfg.get_option("x"), 0);
}

#[test]
fn first_selectable_skips_the_leading_category() {
    let cfg = scenario();
    assert_eq!(cfg.first_selectable(), 1);
}

#[test]
fn first_selectable_is_zero_when_everything_is_a_category() {
    let cfg = Config {
        filename: String::from("t.json"),
        entries: vec![Entry { key: String::from("A"), value: Value::Category }],
    };
    assert_eq!(cfg.first_selectable(), 0);
}

#[test]
fn navigation_skips_categories_in_both_directions() {
    let cfg = Config {
        filename: String::from("t.json"),
        entries: vec![
            Entry { key: String::from("one"), value: Value::Integer { value: 1 } },
            Entry { key: String::from("B"), value: Value::Category },
            Entry { key: String::from("two"), value: Value::Integer { value: 2 } },
        ],
    };
    assert_eq!(cfg.move_down(0), 2);
    assert_eq!(cfg.move_up(2), 0);
    assert_eq!(cfg.move_up(0), 0);
    assert_eq!(cfg.move_down(2), 2);
}

#[test]
fn cycling_forward_and_back_wraps_at_the_ends() {
    let mut cfg = scenario();
    assert!(cfg.cycle_at(1, false));
    assert_eq!(cfg.get_option("x"), 2);
    assert!(cfg.cycle_at(1, true));
    assert_eq!(cfg.get_option("x"), 0);
}

#[test]
fn cycling_an_empty_option_list_changes_nothing() {
    let mut cfg = Config {
        filename: String::from("t.json"),
        entries: vec![Entry { key: String::from("x"), value: choice(&[], 0) }],
    };
    assert!(!cfg.cycle_at(0, true));
    assert_eq!(cfg.get_option("x"), 0);
}

#[test]
fn arrows_toggle_booleans_in_either_direction() {
    let mut cfg = Config {
        filename: String::from("t.json"),
        entries: vec![Entry { key: String::from("b"), value: Value::Boolean { value: false } }],
    };
    cfg.session_step(0, SessionKey::Left, false);
    assert!(cfg.get_bool("b"));
    cfg.session_step(0, SessionKey::Right, false);
    assert!(!cfg.get_bool("b"));
}

#[test]
fn enter_on_text_and_integer_opens_the_matching_editor() {
    let mut cfg = Config {
        filename: String::from("t.json"),
        entries: vec![
            Entry {
                key: String::from("t"),
                value: Value::Text { value: String::new(), maximum_size: None },
            },
            Entry { key: String::from("i"), value: Value::Integer { value: 0 } },
        ],
    };
    let out = cfg.session_step(0, SessionKey::Enter, false);
    assert_eq!(out.action, SessionAction::OpenTextEditor);
    let out = cfg.session_step(1, SessionKey::Enter, false);
    assert_eq!(out.action, SessionAction::OpenIntEditor);
}

#[test]
fn enter_on_a_category_shows_the_hint_and_edit_hints_per_kind() {
    let mut cfg = scenario();
    let out = cfg.session_step(0, SessionKey::Enter, false);
    assert_eq!(out.action, SessionAction::HintCategory);
    let out = cfg.session_step(1, SessionKey::Edit, false);
    assert_eq!(out.action, SessionAction::HintChoice);
    let msg = clockcfg::session::hint_message(SessionAction::HintCategory).unwrap();
    assert_eq!(msg, "Category header (not editable).");
    assert!(clockcfg::session::hint_message(SessionAction::Redraw).is_none());
}

#[test]
fn autosave_marks_enter_but_not_arrows_for_persisting() {
    let mut cfg = scenario();
    let out = cfg.session_step(1, SessionKey::Enter, true);
    assert!(out.save);
    let out = cfg.session_step(1, SessionKey::Right, true);
    assert!(!out.save);
    let out = cfg.session_step(1, SessionKey::Enter, false);
    assert!(!out.save);
}

#[test]
fn enter_on_an_empty_choice_skips_the_autosave() {
    let mut cfg = Config {
        filename: String::from("t.json"),
        entries: vec![Entry { key: String::from("x"), value: choice(&[], 0) }],
    };
    let out = cfg.session_step(0, SessionKey::Enter, true);
    assert!(!out.save);
}

#[test]
fn save_and_quit_keys_request_the_matching_actions() {
    let mut cfg = scenario();
    assert_eq!(cfg.session_step(1, SessionKey::Save, true).action, SessionAction::SaveRequested);
    assert_eq!(cfg.session_step(1, SessionKey::Quit, true).action, SessionAction::Quit);
    assert_eq!(cfg.session_step(1, SessionKey::Other, true).action, SessionAction::Idle);
}

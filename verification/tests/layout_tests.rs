use clockcfg::layout::{
    category_bar, center_row, clip_to_width, color_name_to_pair, color_prefix, max_line_width,
    render_line, row_for, start_col,
};
use clockcfg::{Config, Entry, Value};

#[test]
fn lines_pad_the_key_to_twenty_columns() {
    let e = Entry {
        key: String::from("name"),
        value: Value::Text { value: String::from("hi"), maximum_size: None },
    };
    assert_eq!(render_line(&e), "name                 = \"hi\"");
}

#[test]
fn lines_show_each_kind_in_its_own_shape() {
    let e = Entry {
        key: String::from("pick"),
        value: Value::Choice {
            options: vec![String::from("a"), String::from("b")],
            selected: 1,
        },
    };
    assert_eq!(render_line(&e), "pick                 = [b]");
    let e = Entry { key: String::from("n"), value: Value::Integer { value: -3 } };
    assert_eq!(render_line(&e), "n                    = -3");
    let e = Entry { key: String::from("b"), value: Value::Boolean { value: false } };
    assert_eq!(render_line(&e), "b                    = [false]");
    let e = Entry { key: String::from("Section"), value: Value::Category };
    assert_eq!(render_line(&e), "Section");
}

#[test]
fn a_selection_past_an_empty_option_list_shows_a_placeholder() {
    let e = Entry {
        key: String::from("pick"),
        value: Value::Color { options: vec![], selected: 0 },
    };
    assert_eq!(render_line(&e), "pick                 = [<?>]");
}

#[test]
fn the_widest_line_sets_the_margin() {
    let cfg = Config {
        filename: String::from("t.json"),
        entries: vec![
            Entry { key: String::from("A"), value: Value::Category },
            Entry { key: String::from("n"), value: Value::Integer { value: 7 } },
        ],
    };
    let lines = cfg.render_lines();
    assert_eq!(lines.len(), 2);
    let w = max_line_width(&lines);
    assert_eq!(w, 24);
    assert_eq!(start_col(80, w), 28);
    assert_eq!(start_col(10, w), 0);
}

#[test]
fn the_center_row_is_clamped_into_the_list_region() {
    assert_eq!(center_row(24), 12);
    assert_eq!(center_row(4), 1);
    assert_eq!(center_row(0), -3);
}

#[test]
fn rows_follow_the_offset_from_the_selection() {
    assert_eq!(row_for(24, 12, 3, 3), Some(12));
    assert_eq!(row_for(24, 12, 5, 3), Some(14));
    assert_eq!(row_for(24, 12, 0, 3), Some(9));
    assert_eq!(row_for(24, 12, 30, 3), None);
    assert_eq!(row_for(24, 12, 0, 30), None);
}

#[test]
fn category_bars_center_the_key_in_the_bar() {
    assert_eq!(category_bar("AB", 8), "   AB   ");
    assert_eq!(category_bar("ABC", 8), "  ABC   ");
    assert_eq!(category_bar("LONGKEY", 3), "LONGKEY");
}

#[test]
fn the_color_prefix_mirrors_the_line_shape() {
    assert_eq!(color_prefix("tone"), "tone                 = [");
}

#[test]
fn color_names_map_to_their_pairs_case_insensitively() {
    assert_eq!(color_name_to_pair("BLACK"), Some(2));
    assert_eq!(color_name_to_pair("red"), Some(3));
    assert_eq!(color_name_to_pair("Green"), Some(4));
    assert_eq!(color_name_to_pair("WHITE"), Some(9));
    assert_eq!(color_name_to_pair("mauve"), None);
}

#[test]
fn status_text_is_clipped_to_the_terminal_width() {
    assert_eq!(clip_to_width("hello", 80), "hello");
    assert_eq!(clip_to_width("hello", 4), "hel");
    assert_eq!(clip_to_width("hello", 1), "h");
    assert_eq!(clip_to_width("hello", 0), "h");
}

//! The built-in default schema: the entry list a configuration starts
//! from when no document exists or the stored one cannot be read.

use vstd::prelude::*;

use crate::model::Config;
use crate::model::Entry;
use crate::model::EntryModel;
use crate::model::Value;
use crate::model::ValueModel;

verus! {

use vstd::string::StringExecFns;

/// The fixed color palette every color entry offers.
pub open spec fn color_options_model() -> Seq<Seq<char>> {
    seq!["BLACK"@, "RED"@, "GREEN"@, "YELLOW"@, "BLUE"@, "MAGENTA"@, "CYAN"@, "WHITE"@]
}

pub open spec fn cat_model(key: Seq<char>) -> EntryModel {
    EntryModel { key, value: ValueModel::Category }
}

pub open spec fn color_model(key: Seq<char>, sel: int) -> EntryModel {
    EntryModel {
        key,
        value: ValueModel::Color { options: color_options_model(), selected: sel },
    }
}

pub open spec fn text_model(key: Seq<char>, value: Seq<char>, max: int) -> EntryModel {
    EntryModel { key, value: ValueModel::Text { value, maximum_size: Some(max) } }
}

pub open spec fn choice_model(key: Seq<char>, options: Seq<Seq<char>>, sel: int) -> EntryModel {
    EntryModel { key, value: ValueModel::Choice { options, selected: sel } }
}

pub open spec fn int_model(key: Seq<char>, value: int) -> EntryModel {
    EntryModel { key, value: ValueModel::Integer { value } }
}

pub open spec fn bool_model(key: Seq<char>, value: bool) -> EntryModel {
    EntryModel { key, value: ValueModel::Boolean { value } }
}

/// The default entry list: the color section, the hand labels, the display
/// modes, and the keyboard shortcuts, in display order.
pub open spec fn spec_default_entries() -> Seq<EntryModel> {
    seq![
        cat_model("Colors"@),
        color_model("background color"@, 0),
        color_model("circle color"@, 2),
        color_model("seconds color"@, 6),
        color_model("digits color"@, 7),
        color_model("minutes color"@, 3),
        color_model("hours color"@, 1),
        cat_model("Hand labels"@),
        text_model("hour hand label"@, "HOURS"@, 32),
        text_model("minute hand label"@, "minutes"@, 32),
        text_model("second hand label"@, "."@, 32),
        cat_model("Display modes"@),
        choice_model(
            "clock border"@,
            seq!["full"@, "dot and hours"@, "hours"@, "no border"@],
            1,
        ),
        choice_model(
            "display seconds"@,
            seq![
                "no display"@,
                "full each second"@,
                "full continuous"@,
                "end of hand each second"@,
                "end of hand full continuous"@,
            ],
            1,
        ),
        choice_model("numbers"@, seq!["no numbers"@, "stars"@, "numbers"@], 0),
        int_model("clock width"@, 5),
        int_model("local time offset"@, 0),
        bool_model("continuous minutes"@, true),
        cat_model("Keyboard shortcuts"@),
        text_model("change clock border"@, "c"@, 1),
        text_model("change number display"@, "n"@, 1),
        text_model("change seconds display"@, "s"@, 1),
        text_model("quit"@, "q"@, 1),
    ]
}

/// The fixed color palette, as stored options.
fn color_options() -> (v: Vec<String>)
    ensures
        v.deep_view() == color_options_model(),
{
    let mut v: Vec<String> = Vec::new();
    v.push(String::from_str("BLACK"));
    v.push(String::from_str("RED"));
    v.push(String::from_str("GREEN"));
    v.push(String::from_str("YELLOW"));
    v.push(String::from_str("BLUE"));
    v.push(String::from_str("MAGENTA"));
    v.push(String::from_str("CYAN"));
    v.push(String::from_str("WHITE"));
    proof {
        assert(v.deep_view() =~~= color_options_model());
    }
    v
}

fn cat_entry(key: &str) -> (e: Entry)
    ensures
        e@ == cat_model(key@),
{
    Entry { key: key.to_owned(), value: Value::Category }
}

fn color_entry(key: &str, sel: usize) -> (e: Entry)
    ensures
        e@ == color_model(key@, sel as int),
{
    let e = Entry { key: key.to_owned(), value: Value::Color { options: color_options(), selected: sel } };
    proof {
        assert(e@ =~~= color_model(key@, sel as int));
    }
    e
}

fn text_entry(key: &str, value: &str, max: usize) -> (e: Entry)
    ensures
        e@ == text_model(key@, value@, max as int),
{
    Entry {
        key: key.to_owned(),
        value: Value::Text { value: value.to_owned(), maximum_size: Some(max) },
    }
}

fn int_entry(key: &str, value: i64) -> (e: Entry)
    ensures
        e@ == int_model(key@, value as int),
{
    Entry { key: key.to_owned(), value: Value::Integer { value } }
}

fn bool_entry(key: &str, value: bool) -> (e: Entry)
    ensures
        e@ == bool_model(key@, value),
{
    Entry { key: key.to_owned(), value: Value::Boolean { value } }
}

impl Config {
    /// The built-in default configuration for the given document name.
    pub fn default(filename_str: &str) -> (c: Self)
        ensures
            c@.filename == filename_str@,
            c@.entries == spec_default_entries(),
            c@.wf(),
    {
        let mut entries: Vec<Entry> = Vec::new();
        entries.push(cat_entry("Colors"));
        entries.push(color_entry("background color", 0));
        entries.push(color_entry("circle color", 2));
        entries.push(color_entry("seconds color", 6));
        entries.push(color_entry("digits color", 7));
        entries.push(color_entry("minutes color", 3));
        entries.push(color_entry("hours color", 1));
        entries.push(cat_entry("Hand labels"));
        entries.push(text_entry("hour hand label", "HOURS", 32));
        entries.push(text_entry("minute hand label", "minutes", 32));
        entries.push(text_entry("second hand label", ".", 32));
        entries.push(cat_entry("Display modes"));

        let mut border: Vec<String> = Vec::new();
        border.push(String::from_str("full"));
        border.push(String::from_str("dot and hours"));
        border.push(String::from_str("hours"));
        border.push(String::from_str("no border"));
        entries.push(Entry {
            key: String::from_str("clock border"),
            value: Value::Choice { options: border, selected: 1 },
        });

        let mut seconds: Vec<String> = Vec::new();
        seconds.push(String::from_str("no display"));
        seconds.push(String::from_str("full each second"));
        seconds.push(String::from_str("full continuous"));
        seconds.push(String::from_str("end of hand each second"));
        seconds.push(String::from_str("end of hand full continuous"));
        entries.push(Entry {
            key: String::from_str("display seconds"),
            value: Value::Choice { options: seconds, selected: 1 },
        });

        let mut numbers: Vec<String> = Vec::new();
        numbers.push(String::from_str("no numbers"));
        numbers.push(String::from_str("stars"));
        numbers.push(String::from_str("numbers"));
        entries.push(Entry {
            key: String::from_str("numbers"),
            value: Value::Choice { options: numbers, selected: 0 },
        });

        entries.push(int_entry("clock width", 5));
        entries.push(int_entry("local time offset", 0));
        entries.push(bool_entry("continuous minutes", true));
        entries.push(cat_entry("Keyboard shortcuts"));
        entries.push(text_entry("change clock border", "c", 1));
        entries.push(text_entry("change number display", "n", 1));
        entries.push(text_entry("change seconds display", "s", 1));
        entries.push(text_entry("quit", "q", 1));

        let c = Config { filename: filename_str.to_owned(), entries };
        proof {
            assert(c@.entries =~~= spec_default_entries());
            assert forall|i: int| 0 <= i < c@.entries.len() implies (#[trigger] c@.entries[i].value).wf() by {
                assert(spec_default_entries()[i] == c@.entries[i]);
            }
        }
        c
    }
}

} // verus!

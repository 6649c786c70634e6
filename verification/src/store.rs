//! The configuration store: typed read accessors and kind-checked setters
//! over the ordered entry list. Every setter is a no-op that reports
//! failure on a key miss, a kind mismatch, or an out-of-range argument.

use vstd::prelude::*;

use crate::digits::dec_int_chars;
use crate::digits::i64_to_string;
use crate::model::find_key;
use crate::model::lemma_find_key;
use crate::model::Config;
use crate::model::ConfigModel;
use crate::model::Value;
use crate::model::ValueModel;

verus! {

use vstd::string::StringExecFns;

/// The string form a value presents: the text itself, the selected option,
/// or the decimal/boolean rendering; section headers have none.
pub open spec fn string_form(v: ValueModel) -> Option<Seq<char>> {
    match v {
        ValueModel::Text { value, .. } => Some(value),
        ValueModel::Choice { options, selected } => if 0 <= selected < options.len() {
            Some(options[selected])
        } else {
            None
        },
        ValueModel::Color { options, selected } => if 0 <= selected < options.len() {
            Some(options[selected])
        } else {
            None
        },
        ValueModel::Integer { value } => Some(dec_int_chars(value)),
        ValueModel::Boolean { value } => Some(if value {
            "true"@
        } else {
            "false"@
        }),
        ValueModel::Category => None,
    }
}

pub open spec fn spec_get_string(m: ConfigModel, key: Seq<char>) -> Option<Seq<char>> {
    match find_key(m.entries, key) {
        Some(i) => string_form(m.entries[i].value),
        None => None,
    }
}

/// The selected index of a choice-like entry; every other case reads as zero.
pub open spec fn spec_get_option(m: ConfigModel, key: Seq<char>) -> int {
    match find_key(m.entries, key) {
        Some(i) => match m.entries[i].value {
            ValueModel::Choice { selected, .. } => selected,
            ValueModel::Color { selected, .. } => selected,
            _ => 0,
        },
        None => 0,
    }
}

/// The value of an integer entry; every other case reads as zero.
pub open spec fn spec_get_int(m: ConfigModel, key: Seq<char>) -> int {
    match find_key(m.entries, key) {
        Some(i) => match m.entries[i].value {
            ValueModel::Integer { value } => value,
            _ => 0,
        },
        None => 0,
    }
}

/// The value of a boolean entry; every other case reads as false.
pub open spec fn spec_get_bool(m: ConfigModel, key: Seq<char>) -> bool {
    match find_key(m.entries, key) {
        Some(i) => match m.entries[i].value {
            ValueModel::Boolean { value } => value,
            _ => false,
        },
        None => false,
    }
}

/// The model with entry `i`'s value replaced, the key kept.
pub open spec fn spec_update_value(m: ConfigModel, i: int, v: ValueModel) -> ConfigModel {
    ConfigModel {
        filename: m.filename,
        entries: m.entries.update(i, EntryModel { key: m.entries[i].key, value: v }),
    }
}

/// When `set_option` succeeds: the key names a choice-like entry and the
/// index is neither negative nor past the option list.
pub open spec fn spec_set_option_ok(m: ConfigModel, key: Seq<char>, idx: int) -> bool {
    &&& idx >= 0
    &&& match find_key(m.entries, key) {
        Some(i) => match m.entries[i].value {
            ValueModel::Choice { options, .. } => idx < options.len(),
            ValueModel::Color { options, .. } => idx < options.len(),
            _ => false,
        },
        None => false,
    }
}

pub open spec fn spec_set_option_result(m: ConfigModel, key: Seq<char>, idx: int) -> ConfigModel {
    match find_key(m.entries, key) {
        Some(i) => match m.entries[i].value {
            ValueModel::Choice { options, .. } => spec_update_value(
                m,
                i,
                ValueModel::Choice { options, selected: idx },
            ),
            ValueModel::Color { options, .. } => spec_update_value(
                m,
                i,
                ValueModel::Color { options, selected: idx },
            ),
            _ => m,
        },
        None => m,
    }
}

/// When `set_int` succeeds: the key names an integer entry.
pub open spec fn spec_set_int_ok(m: ConfigModel, key: Seq<char>) -> bool {
    match find_key(m.entries, key) {
        Some(i) => m.entries[i].value is Integer,
        None => false,
    }
}

pub open spec fn spec_set_int_result(m: ConfigModel, key: Seq<char>, v: int) -> ConfigModel {
    match find_key(m.entries, key) {
        Some(i) => spec_update_value(m, i, ValueModel::Integer { value: v }),
        None => m,
    }
}

/// When `set_bool` succeeds: the key names a boolean entry.
pub open spec fn spec_set_bool_ok(m: ConfigModel, key: Seq<char>) -> bool {
    match find_key(m.entries, key) {
        Some(i) => m.entries[i].value is Boolean,
        None => false,
    }
}

pub open spec fn spec_set_bool_result(m: ConfigModel, key: Seq<char>, v: bool) -> ConfigModel {
    match find_key(m.entries, key) {
        Some(i) => spec_update_value(m, i, ValueModel::Boolean { value: v }),
        None => m,
    }
}

/// When `set_string` succeeds: the key names a text entry and the new value
/// fits under the declared cap, if one is declared. A value exactly as long
/// as the cap is accepted.
pub open spec fn spec_set_string_ok(m: ConfigModel, key: Seq<char>, v: Seq<char>) -> bool {
    match find_key(m.entries, key) {
        Some(i) => match m.entries[i].value {
            ValueModel::Text { maximum_size, .. } => match maximum_size {
                Some(max) => v.len() <= max,
                None => true,
            },
            _ => false,
        },
        None => false,
    }
}

pub open spec fn spec_set_string_result(m: ConfigModel, key: Seq<char>, v: Seq<char>) -> ConfigModel {
    match find_key(m.entries, key) {
        Some(i) => match m.entries[i].value {
            ValueModel::Text { maximum_size, .. } => spec_update_value(
                m,
                i,
                ValueModel::Text { value: v, maximum_size },
            ),
            _ => m,
        },
        None => m,
    }
}


/// Writes the selection of a choice-like value; reports whether the kind
/// matched and the index was below the option count.
fn value_set_option(v: &mut Value, idx: i64) -> (r: bool)
    requires
        idx >= 0,
    ensures
        r == (match old(v)@ {
            ValueModel::Choice { options, .. } => idx < options.len(),
            ValueModel::Color { options, .. } => idx < options.len(),
            _ => false,
        }),
        r ==> final(v)@ == (match old(v)@ {
            ValueModel::Choice { options, .. } => ValueModel::Choice {
                options,
                selected: idx as int,
            },
            ValueModel::Color { options, .. } => ValueModel::Color {
                options,
                selected: idx as int,
            },
            _ => old(v)@,
        }),
        !r ==> final(v)@ == old(v)@,
{
    match v {
        Value::Choice { options, selected } => {
            if (idx as u64) < (options.len() as u64) {
                *selected = idx as usize;
                true
            } else {
                false
            }
        },
        Value::Color { options, selected } => {
            if (idx as u64) < (options.len() as u64) {
                *selected = idx as usize;
                true
            } else {
                false
            }
        },
        _ => false,
    }
}

/// Writes an integer value; reports whether the kind matched.
pub(crate) fn value_set_int(v: &mut Value, x: i64) -> (r: bool)
    ensures
        r == (old(v)@ is Integer),
        r ==> final(v)@ == (ValueModel::Integer { value: x as int }),
        !r ==> final(v)@ == old(v)@,
{
    match v {
        Value::Integer { value } => {
            *value = x;
            true
        },
        _ => false,
    }
}

/// Writes a boolean value; reports whether the kind matched.
fn value_set_bool(v: &mut Value, x: bool) -> (r: bool)
    ensures
        r == (old(v)@ is Boolean),
        r ==> final(v)@ == (ValueModel::Boolean { value: x }),
        !r ==> final(v)@ == old(v)@,
{
    match v {
        Value::Boolean { value } => {
            *value = x;
            true
        },
        _ => false,
    }
}

/// Writes a text value when it fits under the declared cap; reports
/// whether the kind matched and the value fit.
fn value_set_text(v: &mut Value, s: &str) -> (r: bool)
    ensures
        r == (match old(v)@ {
            ValueModel::Text { maximum_size, .. } => match maximum_size {
                Some(max) => s@.len() <= max,
                None => true,
            },
            _ => false,
        }),
        r ==> final(v)@ == (match old(v)@ {
            ValueModel::Text { maximum_size, .. } => ValueModel::Text {
                value: s@,
                maximum_size,
            },
            _ => old(v)@,
        }),
        !r ==> final(v)@ == old(v)@,
{
    let n = crate::strutil::str_to_chars(s).len();
    match v {
        Value::Text { value, maximum_size } => {
            let fits = match maximum_size {
                Some(max) => n <= *max,
                None => true,
            };
            if fits {
                *value = s.to_owned();
                true
            } else {
                false
            }
        },
        _ => false,
    }
}

use crate::model::EntryModel;

impl Config {
    /// The position of the first entry carrying the key, if any.
    pub fn find_entry(&self, key: &str) -> (r: Option<usize>)
        ensures
            match r {
                Some(i) => i < self.entries@.len() && find_key(self@.entries, key@) == Some(
                    i as int,
                ),
                None => find_key(self@.entries, key@) is None,
            },
    {
        let keyo: String = key.to_owned();
        let n = self.entries.len();
        let mut i: usize = 0;
        while i < n
            invariant
                n == self.entries@.len(),
                i <= n,
                keyo@ == key@,
                forall|j: int| 0 <= j < i ==> (#[trigger] self@.entries[j].key) != key@,
            decreases n - i,
        {
            if self.entries[i].key == keyo {
                proof {
                    lemma_find_key(self@.entries, key@);
                    assert(self@.entries[i as int].key == key@);
                }
                return Some(i);
            }
            proof {
                assert(self@.entries[i as int].key == self.entries@[i as int].key@);
            }
            i += 1;
        }
        proof {
            lemma_find_key(self@.entries, key@);
        }
        None
    }

    /// The string a key's entry presents: a text entry's value, the selected
    /// option of a choice or color, the decimal form of an integer, `true`
    /// or `false` for a boolean; `None` for a header, a missing key, or a
    /// selection past an empty option list.
    pub fn get_string(&self, key: &str) -> (r: Option<String>)
        ensures
            match r {
                Some(s) => spec_get_string(self@, key@) == Some(s@),
                None => spec_get_string(self@, key@) is None,
            },
    {
        let i = match self.find_entry(key) {
            Some(i) => i,
            None => {
                return None;
            },
        };
        proof {
            assert(self@.entries[i as int] == self.entries@[i as int]@);
        }
        match &self.entries[i].value {
            Value::Text { value, .. } => Some(value.clone()),
            Value::Choice { options, selected } => {
                if *selected < options.len() {
                    Some(options[*selected].clone())
                } else {
                    None
                }
            },
            Value::Color { options, selected } => {
                if *selected < options.len() {
                    Some(options[*selected].clone())
                } else {
                    None
                }
            },
            Value::Integer { value } => Some(i64_to_string(*value)),
            Value::Boolean { value } => {
                if *value {
                    Some(String::from_str("true"))
                } else {
                    Some(String::from_str("false"))
                }
            },
            Value::Category => None,
        }
    }

    /// The selected index of a choice-like entry; zero for any other kind
    /// or a missing key.
    pub fn get_option(&self, key: &str) -> (r: usize)
        ensures
            r as int == spec_get_option(self@, key@),
    {
        let i = match self.find_entry(key) {
            Some(i) => i,
            None => {
                return 0;
            },
        };
        proof {
            assert(self@.entries[i as int] == self.entries@[i as int]@);
        }
        match &self.entries[i].value {
            Value::Choice { selected, .. } => *selected,
            Value::Color { selected, .. } => *selected,
            _ => 0,
        }
    }

    /// The value of an integer entry; zero for any other kind or a missing
    /// key.
    pub fn get_int(&self, key: &str) -> (r: i64)
        ensures
            r as int == spec_get_int(self@, key@),
    {
        let i = match self.find_entry(key) {
            Some(i) => i,
            None => {
                return 0;
            },
        };
        proof {
            assert(self@.entries[i as int] == self.entries@[i as int]@);
        }
        match &self.entries[i].value {
            Value::Integer { value } => *value,
            _ => 0,
        }
    }

    /// The value of a boolean entry; false for any other kind or a missing
    /// key.
    pub fn get_bool(&self, key: &str) -> (r: bool)
        ensures
            r == spec_get_bool(self@, key@),
    {
        let i = match self.find_entry(key) {
            Some(i) => i,
            None => {
                return false;
            },
        };
        proof {
            assert(self@.entries[i as int] == self.entries@[i as int]@);
        }
        match &self.entries[i].value {
            Value::Boolean { value } => *value,
            _ => false,
        }
    }

    /// Selects option `value` of a choice or color entry. Fails, changing
    /// nothing, when the index is negative or not below the option count,
    /// the kind does not match, or the key is missing.
    pub fn set_option(&mut self, key: &str, value: i64) -> (r: Option<i64>)
        ensures
            spec_set_option_ok(old(self)@, key@, value as int) ==> r == Some(value) && final(self)@
                == spec_set_option_result(old(self)@, key@, value as int),
            !spec_set_option_ok(old(self)@, key@, value as int) ==> r is None && final(self)@
                == old(self)@,
            old(self)@.wf() ==> final(self)@.wf(),
    {
        let i = match self.find_entry(key) {
            Some(i) => i,
            None => {
                return None;
            },
        };
        if value < 0 {
            return None;
        }
        proof {
            assert(old(self)@.entries[i as int] == self.entries@[i as int]@);
        }
        let ghost m0 = self@;
        let entry = &mut self.entries[i];
        let ok = value_set_option(&mut entry.value, value);
        proof {
            if ok {
                lemma_entry_value_update(m0, self@, i as int);
            } else {
                lemma_entry_unchanged(m0, self@, i as int);
            }
        }
        if ok {
            Some(value)
        } else {
            None
        }
    }

    /// Writes an integer entry. Fails, changing nothing, on a kind mismatch
    /// or a missing key.
    pub fn set_int(&mut self, key: &str, value: i64) -> (r: Option<i64>)
        ensures
            spec_set_int_ok(old(self)@, key@) ==> r == Some(value) && final(self)@
                == spec_set_int_result(old(self)@, key@, value as int),
            !spec_set_int_ok(old(self)@, key@) ==> r is None && final(self)@ == old(self)@,
            old(self)@.wf() ==> final(self)@.wf(),
    {
        let i = match self.find_entry(key) {
            Some(i) => i,
            None => {
                return None;
            },
        };
        proof {
            assert(old(self)@.entries[i as int] == self.entries@[i as int]@);
        }
        let ghost m0 = self@;
        let entry = &mut self.entries[i];
        let ok = value_set_int(&mut entry.value, value);
        proof {
            if ok {
                lemma_entry_value_update(m0, self@, i as int);
            } else {
                lemma_entry_unchanged(m0, self@, i as int);
            }
        }
        if ok {
            Some(value)
        } else {
            None
        }
    }

    /// Writes a boolean entry. Fails, changing nothing, on a kind mismatch
    /// or a missing key.
    pub fn set_bool(&mut self, key: &str, value: bool) -> (r: Option<bool>)
        ensures
            spec_set_bool_ok(old(self)@, key@) ==> r == Some(value) && final(self)@
                == spec_set_bool_result(old(self)@, key@, value),
            !spec_set_bool_ok(old(self)@, key@) ==> r is None && final(self)@ == old(self)@,
            old(self)@.wf() ==> final(self)@.wf(),
    {
        let i = match self.find_entry(key) {
            Some(i) => i,
            None => {
                return None;
            },
        };
        proof {
            assert(old(self)@.entries[i as int] == self.entries@[i as int]@);
        }
        let ghost m0 = self@;
        let entry = &mut self.entries[i];
        let ok = value_set_bool(&mut entry.value, value);
        proof {
            if ok {
                lemma_entry_value_update(m0, self@, i as int);
            } else {
                lemma_entry_unchanged(m0, self@, i as int);
            }
        }
        if ok {
            Some(value)
        } else {
            None
        }
    }

    /// Writes a text entry. Fails, changing nothing, when the new value is
    /// longer than the declared cap (a value exactly as long as the cap is
    /// accepted), on a kind mismatch, or on a missing key.
    pub fn set_string(&mut self, key: &str, value: &str) -> (r: Option<bool>)
        ensures
            spec_set_string_ok(old(self)@, key@, value@) ==> r == Some(true) && final(self)@
                == spec_set_string_result(old(self)@, key@, value@),
            !spec_set_string_ok(old(self)@, key@, value@) ==> r is None && final(self)@
                == old(self)@,
            old(self)@.wf() ==> final(self)@.wf(),
    {
        let i = match self.find_entry(key) {
            Some(i) => i,
            None => {
                return None;
            },
        };
        proof {
            assert(old(self)@.entries[i as int] == self.entries@[i as int]@);
        }
        let ghost m0 = self@;
        let entry = &mut self.entries[i];
        let ok = value_set_text(&mut entry.value, value);
        proof {
            if ok {
                lemma_entry_value_update(m0, self@, i as int);
            } else {
                lemma_entry_unchanged(m0, self@, i as int);
            }
        }
        if ok {
            Some(true)
        } else {
            None
        }
    }
}

/// An update of one entry's value, seen through the configuration view.
pub proof fn lemma_entry_value_update(m0: ConfigModel, m1: ConfigModel, i: int)
    requires
        0 <= i < m0.entries.len(),
        m1.filename == m0.filename,
        m1.entries.len() == m0.entries.len(),
        m1.entries[i].key == m0.entries[i].key,
        forall|j: int| 0 <= j < m0.entries.len() && j != i ==> m1.entries[j] == m0.entries[j],
    ensures
        m1 == spec_update_value(m0, i, m1.entries[i].value),
{
    assert(m1.entries =~= m0.entries.update(
        i,
        EntryModel { key: m0.entries[i].key, value: m1.entries[i].value },
    ));
    assert(m1 =~= spec_update_value(m0, i, m1.entries[i].value));
}

/// A borrow of one entry that wrote nothing leaves the view unchanged.
pub proof fn lemma_entry_unchanged(m0: ConfigModel, m1: ConfigModel, i: int)
    requires
        0 <= i < m0.entries.len(),
        m1.filename == m0.filename,
        m1.entries.len() == m0.entries.len(),
        m1.entries[i] == m0.entries[i],
        forall|j: int| 0 <= j < m0.entries.len() && j != i ==> m1.entries[j] == m0.entries[j],
    ensures
        m1 == m0,
{
    assert(m1.entries =~= m0.entries);
    assert(m1 =~= m0);
}

/// Replacing an entry's value by itself changes nothing.
pub proof fn lemma_update_value_same(m: ConfigModel, i: int)
    requires
        0 <= i < m.entries.len(),
    ensures
        spec_update_value(m, i, m.entries[i].value) == m,
{
    assert(spec_update_value(m, i, m.entries[i].value).entries =~= m.entries);
    assert(spec_update_value(m, i, m.entries[i].value) =~= m);
}

} // verus!

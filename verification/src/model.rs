//! Data model: typed field values, keyed entries, and the configuration
//! store itself, together with their mathematical models and the
//! well-formedness invariant (selected indices of choice-like fields stay
//! in bounds).

use vstd::prelude::*;

verus! {

/// Mathematical model of a field value.
#[allow(inconsistent_fields)]
#[verifier::ext_equal]
pub enum ValueModel {
    Text { value: Seq<char>, maximum_size: Option<int> },
    Choice { options: Seq<Seq<char>>, selected: int },
    Category,
    Color { options: Seq<Seq<char>>, selected: int },
    Integer { value: int },
    Boolean { value: bool },
}

/// Mathematical model of a keyed entry.
#[verifier::ext_equal]
pub struct EntryModel {
    pub key: Seq<char>,
    pub value: ValueModel,
}

/// Mathematical model of a whole configuration.
#[verifier::ext_equal]
pub struct ConfigModel {
    pub filename: Seq<char>,
    pub entries: Seq<EntryModel>,
}

/// A typed field value. The set of kinds is closed; every consumer matches
/// exhaustively so that adding a kind forces every operation to be revisited.
#[allow(inconsistent_fields)]
pub enum Value {
    /// Free text, with an optional cap in characters.
    Text { value: String, maximum_size: Option<usize> },
    /// A selection among an ordered list of options.
    Choice { options: Vec<String>, selected: usize },
    /// A non-editable section header.
    Category,
    /// Like `Choice`, but the options name terminal colors.
    Color { options: Vec<String>, selected: usize },
    /// A signed 64-bit integer.
    Integer { value: i64 },
    /// A boolean, toggled rather than edited.
    Boolean { value: bool },
}

/// A configuration field: a key paired with its typed value.
pub struct Entry {
    pub key: String,
    pub value: Value,
}

/// An ordered collection of keyed entries, together with the name of the
/// document it is persisted under. Entry order is display order.
pub struct Config {
    pub filename: String,
    pub entries: Vec<Entry>,
}

impl View for Value {
    type V = ValueModel;

    open spec fn view(&self) -> ValueModel {
        match self {
            Value::Text { value, maximum_size } => ValueModel::Text {
                value: value@,
                maximum_size: match maximum_size {
                    Some(m) => Some(*m as int),
                    None => None,
                },
            },
            Value::Choice { options, selected } => ValueModel::Choice {
                options: options.deep_view(),
                selected: *selected as int,
            },
            Value::Category => ValueModel::Category,
            Value::Color { options, selected } => ValueModel::Color {
                options: options.deep_view(),
                selected: *selected as int,
            },
            Value::Integer { value } => ValueModel::Integer { value: *value as int },
            Value::Boolean { value } => ValueModel::Boolean { value: *value },
        }
    }
}

impl DeepView for Value {
    type V = ValueModel;

    open spec fn deep_view(&self) -> ValueModel {
        self.view()
    }
}

impl View for Entry {
    type V = EntryModel;

    open spec fn view(&self) -> EntryModel {
        EntryModel { key: self.key@, value: self.value@ }
    }
}

impl DeepView for Entry {
    type V = EntryModel;

    open spec fn deep_view(&self) -> EntryModel {
        self.view()
    }
}

impl View for Config {
    type V = ConfigModel;

    open spec fn view(&self) -> ConfigModel {
        ConfigModel {
            filename: self.filename@,
            entries: Seq::new(self.entries@.len(), |i: int| self.entries@[i]@),
        }
    }
}

impl ValueModel {
    /// The selection of a choice-like field is in bounds; an empty option
    /// list pins the selection at zero.
    pub open spec fn wf(self) -> bool {
        match self {
            ValueModel::Choice { options, selected } => {
                if options.len() == 0 {
                    selected == 0
                } else {
                    0 <= selected < options.len()
                }
            },
            ValueModel::Color { options, selected } => {
                if options.len() == 0 {
                    selected == 0
                } else {
                    0 <= selected < options.len()
                }
            },
            _ => true,
        }
    }

    pub open spec fn is_category(self) -> bool {
        self is Category
    }
}

impl ConfigModel {
    pub open spec fn wf(self) -> bool {
        forall|i: int| 0 <= i < self.entries.len() ==> (#[trigger] self.entries[i].value).wf()
    }
}

/// The first index whose entry carries the given key, if any; keys are
/// looked up by first match.
pub open spec fn find_key(entries: Seq<EntryModel>, key: Seq<char>) -> Option<int>
    decreases entries.len(),
{
    if entries.len() == 0 {
        None
    } else if entries[0].key == key {
        Some(0int)
    } else {
        match find_key(entries.drop_first(), key) {
            Some(i) => Some(i + 1),
            None => None,
        }
    }
}

/// What `find_key` returns: the first matching index.
pub proof fn lemma_find_key(entries: Seq<EntryModel>, key: Seq<char>)
    ensures
        match find_key(entries, key) {
            Some(i) => {
                &&& 0 <= i < entries.len()
                &&& entries[i].key == key
                &&& forall|j: int| 0 <= j < i ==> (#[trigger] entries[j].key) != key
            },
            None => forall|j: int|
                0 <= j < entries.len() ==> (#[trigger] entries[j].key) != key,
        },
    decreases entries.len(),
{
    if entries.len() > 0 && entries[0].key != key {
        let rest = entries.drop_first();
        lemma_find_key(rest, key);
        assert forall|j: int| 1 <= j < entries.len() implies entries[j] == rest[j - 1] by {
            assert(rest[j - 1] == entries[j]);
        }
    }
}

} // verus!

//! Per-kind field editors: cycling for choices and colors, toggling for
//! booleans, and the modal line editors that capture a new text or integer
//! value one key at a time.

use vstd::prelude::*;

use crate::digits::int_literal_val;
use crate::digits::is_int_literal;
use crate::digits::parse_i64;
use crate::model::Config;
use crate::model::Value;
use crate::model::ValueModel;
use crate::store::spec_update_value;
use crate::strutil::pop_char;
use crate::strutil::push_char;

verus! {

use vstd::string::StrSliceExecFns;

/// One step forward in a cycle of `n` positions.
pub open spec fn cycle_fwd(s: int, n: int) -> int {
    if s >= n - 1 {
        0
    } else {
        s + 1
    }
}

/// One step backward in a cycle of `n` positions.
pub open spec fn cycle_back(s: int, n: int) -> int {
    if s == 0 {
        n - 1
    } else {
        s - 1
    }
}

/// What one cycling or toggling step does to a value: choices and colors
/// step through their options (an empty option list stays put), booleans
/// invert whatever the direction, and every other kind is untouched.
pub open spec fn spec_cycle_value(v: ValueModel, forward: bool) -> ValueModel {
    match v {
        ValueModel::Choice { options, selected } => {
            if options.len() == 0 {
                v
            } else {
                ValueModel::Choice {
                    options,
                    selected: if forward {
                        cycle_fwd(selected, options.len() as int)
                    } else {
                        cycle_back(selected, options.len() as int)
                    },
                }
            }
        },
        ValueModel::Color { options, selected } => {
            if options.len() == 0 {
                v
            } else {
                ValueModel::Color {
                    options,
                    selected: if forward {
                        cycle_fwd(selected, options.len() as int)
                    } else {
                        cycle_back(selected, options.len() as int)
                    },
                }
            }
        },
        ValueModel::Boolean { value } => ValueModel::Boolean { value: !value },
        _ => v,
    }
}

/// Whether a cycling or toggling step changes the value at all.
pub open spec fn spec_cycle_changes(v: ValueModel) -> bool {
    match v {
        ValueModel::Choice { options, .. } => options.len() > 0,
        ValueModel::Color { options, .. } => options.len() > 0,
        ValueModel::Boolean { .. } => true,
        _ => false,
    }
}

/// `spec_cycle_value` applied forward `k` times.
pub open spec fn cycle_iter(v: ValueModel, k: nat) -> ValueModel
    decreases k,
{
    if k == 0 {
        v
    } else {
        cycle_iter(spec_cycle_value(v, true), (k - 1) as nat)
    }
}

/// Stepping an index forward `k` times wraps around at most once.
proof fn lemma_idx_iter(s: int, n: int, k: nat, t: int)
    requires
        0 <= s < n,
        0 <= k <= n,
        t == if s + k < n {
            s + k
        } else {
            s + k - n
        },
    ensures
        iter_fwd(s, n, k) == t,
    decreases k,
{
    if k > 0 {
        lemma_idx_iter(cycle_fwd(s, n), n, (k - 1) as nat, t);
    }
}

/// `cycle_fwd` applied `k` times to an index.
pub open spec fn iter_fwd(s: int, n: int, k: nat) -> int
    decreases k,
{
    if k == 0 {
        s
    } else {
        iter_fwd(cycle_fwd(s, n), n, (k - 1) as nat)
    }
}

/// For a choice-like value with `n` options, `n` consecutive forward
/// cycles return the selection to where it began.
pub proof fn lemma_cycle_period(v: ValueModel)
    requires
        v.wf(),
        v is Choice || v is Color,
    ensures
        cycle_iter(v, (match v {
            ValueModel::Choice { options, .. } => options.len(),
            ValueModel::Color { options, .. } => options.len(),
            _ => 0,
        })) == v,
{
    match v {
        ValueModel::Choice { options, selected } => {
            if options.len() > 0 {
                lemma_idx_iter(selected, options.len() as int, options.len(), selected);
                lemma_cycle_iter_choice(options, selected, options.len());
            }
        },
        ValueModel::Color { options, selected } => {
            if options.len() > 0 {
                lemma_idx_iter(selected, options.len() as int, options.len(), selected);
                lemma_cycle_iter_color(options, selected, options.len());
            }
        },
        _ => {},
    }
}

/// Cycling a non-empty choice `k` times moves its index by `iter_fwd`.
proof fn lemma_cycle_iter_choice(options: Seq<Seq<char>>, s: int, k: nat)
    requires
        options.len() > 0,
        0 <= s < options.len(),
    ensures
        cycle_iter(ValueModel::Choice { options, selected: s }, k) == (ValueModel::Choice {
            options,
            selected: iter_fwd(s, options.len() as int, k),
        }),
    decreases k,
{
    if k > 0 {
        lemma_cycle_iter_choice(options, cycle_fwd(s, options.len() as int), (k - 1) as nat);
    }
}

/// Cycling a non-empty color `k` times moves its index by `iter_fwd`.
proof fn lemma_cycle_iter_color(options: Seq<Seq<char>>, s: int, k: nat)
    requires
        options.len() > 0,
        0 <= s < options.len(),
    ensures
        cycle_iter(ValueModel::Color { options, selected: s }, k) == (ValueModel::Color {
            options,
            selected: iter_fwd(s, options.len() as int, k),
        }),
    decreases k,
{
    if k > 0 {
        lemma_cycle_iter_color(options, cycle_fwd(s, options.len() as int), (k - 1) as nat);
    }
}

/// Applies one cycling or toggling step to a value in place; reports
/// whether anything changed.
fn value_cycle(v: &mut Value, forward: bool) -> (changed: bool)
    ensures
        final(v)@ == spec_cycle_value(old(v)@, forward),
        changed == spec_cycle_changes(old(v)@),
{
    match v {
        Value::Choice { options, selected } => {
            let n = options.len();
            if n == 0 {
                false
            } else {
                if forward {
                    *selected = if *selected >= n - 1 {
                        0
                    } else {
                        *selected + 1
                    };
                } else {
                    *selected = if *selected == 0 {
                        n - 1
                    } else {
                        *selected - 1
                    };
                }
                true
            }
        },
        Value::Color { options, selected } => {
            let n = options.len();
            if n == 0 {
                false
            } else {
                if forward {
                    *selected = if *selected >= n - 1 {
                        0
                    } else {
                        *selected + 1
                    };
                } else {
                    *selected = if *selected == 0 {
                        n - 1
                    } else {
                        *selected - 1
                    };
                }
                true
            }
        },
        Value::Boolean { value } => {
            *value = !*value;
            true
        },
        _ => false,
    }
}

/// Writes a text value regardless of the declared cap (the cap governs
/// typing in the modal editor, not the commit); reports a kind match.
fn value_commit_text(v: &mut Value, s: &str) -> (r: bool)
    ensures
        r == (old(v)@ is Text),
        r ==> final(v)@ == (match old(v)@ {
            ValueModel::Text { maximum_size, .. } => ValueModel::Text {
                value: s@,
                maximum_size,
            },
            _ => old(v)@,
        }),
        !r ==> final(v)@ == old(v)@,
{
    match v {
        Value::Text { value, .. } => {
            *value = s.to_owned();
            true
        },
        _ => false,
    }
}

impl Config {
    /// One cycling or toggling step on the entry at `i`: choices and
    /// colors advance (or step back), booleans invert either way, and any
    /// other kind — or a position past the list — is left untouched.
    pub fn cycle_at(&mut self, i: usize, forward: bool) -> (changed: bool)
        ensures
            i < old(self)@.entries.len() ==> final(self)@ == spec_update_value(
                old(self)@,
                i as int,
                spec_cycle_value(old(self)@.entries[i as int].value, forward),
            ) && changed == spec_cycle_changes(old(self)@.entries[i as int].value),
            i >= old(self)@.entries.len() ==> final(self)@ == old(self)@ && !changed,
            old(self)@.wf() ==> final(self)@.wf(),
    {
        if i >= self.entries.len() {
            return false;
        }
        proof {
            assert(old(self)@.entries[i as int] == self.entries@[i as int]@);
        }
        let ghost m0 = self@;
        let entry = &mut self.entries[i];
        let changed = value_cycle(&mut entry.value, forward);
        proof {
            crate::store::lemma_entry_value_update(m0, self@, i as int);
        }
        changed
    }

    /// Commits a finished modal text edit into the entry at `i`; fails
    /// without changing anything unless the entry is a text field.
    pub fn commit_text_at(&mut self, i: usize, s: &str) -> (r: bool)
        ensures
            r == (i < old(self)@.entries.len() && old(self)@.entries[i as int].value is Text),
            r ==> final(self)@ == spec_update_value(
                old(self)@,
                i as int,
                match old(self)@.entries[i as int].value {
                    ValueModel::Text { maximum_size, .. } => ValueModel::Text {
                        value: s@,
                        maximum_size,
                    },
                    _ => old(self)@.entries[i as int].value,
                },
            ),
            !r ==> final(self)@ == old(self)@,
            old(self)@.wf() ==> final(self)@.wf(),
    {
        if i >= self.entries.len() {
            return false;
        }
        proof {
            assert(old(self)@.entries[i as int] == self.entries@[i as int]@);
        }
        let ghost m0 = self@;
        let entry = &mut self.entries[i];
        let r = value_commit_text(&mut entry.value, s);
        proof {
            crate::store::lemma_entry_value_update(m0, self@, i as int);
            crate::store::lemma_update_value_same(m0, i as int);
        }
        r
    }

    /// Commits a finished modal integer edit into the entry at `i`; fails
    /// without changing anything unless the entry is an integer field.
    pub fn commit_int_at(&mut self, i: usize, v: i64) -> (r: bool)
        ensures
            r == (i < old(self)@.entries.len() && old(self)@.entries[i as int].value is Integer),
            r ==> final(self)@ == spec_update_value(
                old(self)@,
                i as int,
                ValueModel::Integer { value: v as int },
            ),
            !r ==> final(self)@ == old(self)@,
            old(self)@.wf() ==> final(self)@.wf(),
    {
        if i >= self.entries.len() {
            return false;
        }
        proof {
            assert(old(self)@.entries[i as int] == self.entries@[i as int]@);
        }
        let ghost m0 = self@;
        let entry = &mut self.entries[i];
        let r = crate::store::value_set_int(&mut entry.value, v);
        proof {
            crate::store::lemma_entry_value_update(m0, self@, i as int);
            crate::store::lemma_update_value_same(m0, i as int);
        }
        r
    }
}

/// A key as the modal editors see it.
pub enum ModalKey {
    /// Commit the buffer.
    Confirm,
    /// Discard the buffer.
    Cancel,
    /// Remove the last character.
    Backspace,
    /// A typed character.
    Char(char),
    /// Anything else.
    Other,
}

/// What a modal editor does after a key.
#[derive(Debug, PartialEq, Eq, Structural)]
pub enum ModalOutcome {
    /// Keep editing.
    Pending,
    /// The buffer should be committed.
    Commit,
    /// The edit is abandoned; the prior value stands.
    Discard,
}

/// A printable character the text editor accepts.
pub open spec fn is_printable(c: char) -> bool {
    32 <= c as u32 <= 126
}

/// The modal text editor: a line buffer primed with the field's current
/// value, growing only while under the effective cap.
pub struct TextEditState {
    pub buffer: String,
    pub limit: usize,
}

/// The effective text cap: the declared one, or a large default.
pub open spec fn effective_limit(maximum_size: Option<usize>) -> usize {
    match maximum_size {
        Some(m) => m,
        None => 4096,
    }
}

impl TextEditState {
    /// Opens the editor over the field's current value and cap.
    pub fn start(initial: &str, maximum_size: Option<usize>) -> (st: Self)
        ensures
            st.buffer@ == initial@,
            st.limit == effective_limit(maximum_size),
    {
        let limit = match maximum_size {
            Some(m) => m,
            None => 4096,
        };
        TextEditState { buffer: initial.to_owned(), limit }
    }

    /// One keypress: confirm commits, cancel discards, backspace removes
    /// the last character, and a printable character is appended while the
    /// buffer is under the cap; anything else is ignored.
    pub fn press(&mut self, k: ModalKey) -> (out: ModalOutcome)
        ensures
            final(self).limit == old(self).limit,
            match k {
                ModalKey::Confirm => out == ModalOutcome::Commit && final(self).buffer@ == old(
                    self,
                ).buffer@,
                ModalKey::Cancel => out == ModalOutcome::Discard && final(self).buffer@ == old(
                    self,
                ).buffer@,
                ModalKey::Backspace => out == ModalOutcome::Pending && final(self).buffer@ == (
                if old(self).buffer@.len() > 0 {
                    old(self).buffer@.drop_last()
                } else {
                    old(self).buffer@
                }),
                ModalKey::Char(c) => out == ModalOutcome::Pending && final(self).buffer@ == (
                if is_printable(c) && old(self).buffer@.len() < old(self).limit {
                    old(self).buffer@.push(c)
                } else {
                    old(self).buffer@
                }),
                ModalKey::Other => out == ModalOutcome::Pending && final(self).buffer@ == old(
                    self,
                ).buffer@,
            },
    {
        match k {
            ModalKey::Confirm => ModalOutcome::Commit,
            ModalKey::Cancel => ModalOutcome::Discard,
            ModalKey::Backspace => {
                let _ = pop_char(&mut self.buffer);
                ModalOutcome::Pending
            },
            ModalKey::Char(c) => {
                let u = c as u32;
                if 32 <= u && u <= 126 && self.buffer.unicode_len() < self.limit {
                    push_char(&mut self.buffer, c);
                }
                ModalOutcome::Pending
            },
            ModalKey::Other => ModalOutcome::Pending,
        }
    }
}

/// What an integer edit commits: an empty buffer or a lone minus sign
/// commits zero; a decimal literal in range commits its value; anything
/// else keeps the previous value.
pub open spec fn spec_int_commit(b: Seq<char>, prev: int) -> int {
    if b.len() == 0 || b == seq!['-'] {
        0
    } else if is_int_literal(b) && i64::MIN <= int_literal_val(b) <= i64::MAX {
        int_literal_val(b)
    } else {
        prev
    }
}

/// The modal integer editor: a line buffer that accepts only digits and a
/// single leading minus sign, at most 32 characters.
pub struct IntEditState {
    pub buffer: String,
}

impl IntEditState {
    /// Opens the editor over the field's current value.
    pub fn start(value: i64) -> (st: Self)
        ensures
            st.buffer@ == crate::digits::dec_int_chars(value as int),
    {
        IntEditState { buffer: crate::digits::i64_to_string(value) }
    }

    /// One keypress: confirm commits, cancel discards, backspace removes
    /// the last character; a digit, or a minus sign into an empty buffer,
    /// is appended while under 32 characters; anything else is ignored.
    pub fn press(&mut self, k: ModalKey) -> (out: ModalOutcome)
        ensures
            match k {
                ModalKey::Confirm => out == ModalOutcome::Commit && final(self).buffer@ == old(
                    self,
                ).buffer@,
                ModalKey::Cancel => out == ModalOutcome::Discard && final(self).buffer@ == old(
                    self,
                ).buffer@,
                ModalKey::Backspace => out == ModalOutcome::Pending && final(self).buffer@ == (
                if old(self).buffer@.len() > 0 {
                    old(self).buffer@.drop_last()
                } else {
                    old(self).buffer@
                }),
                ModalKey::Char(c) => out == ModalOutcome::Pending && final(self).buffer@ == (
                if old(self).buffer@.len() < 32 && (crate::digits::is_dec_digit(c) || (c == '-'
                    && old(self).buffer@.len() == 0)) {
                    old(self).buffer@.push(c)
                } else {
                    old(self).buffer@
                }),
                ModalKey::Other => out == ModalOutcome::Pending && final(self).buffer@ == old(
                    self,
                ).buffer@,
            },
    {
        match k {
            ModalKey::Confirm => ModalOutcome::Commit,
            ModalKey::Cancel => ModalOutcome::Discard,
            ModalKey::Backspace => {
                let _ = pop_char(&mut self.buffer);
                ModalOutcome::Pending
            },
            ModalKey::Char(c) => {
                let len = self.buffer.unicode_len();
                if len < 32 && (crate::digits::is_digit_char(c) || (c == '-' && len == 0)) {
                    push_char(&mut self.buffer, c);
                }
                ModalOutcome::Pending
            },
            ModalKey::Other => ModalOutcome::Pending,
        }
    }

    /// The value this buffer commits, the field's previous value standing
    /// in for a buffer that does not parse.
    pub fn commit_value(&self, previous: i64) -> (r: i64)
        ensures
            r as int == spec_int_commit(self.buffer@, previous as int),
    {
        let len = self.buffer.unicode_len();
        if len == 0 {
            return 0;
        }
        if len == 1 && self.buffer.as_str().get_char(0) == '-' {
            proof {
                assert(self.buffer@ =~= seq!['-']);
            }
            return 0;
        }
        proof {
            if self.buffer@ == seq!['-'] {
                assert(self.buffer@.len() == 1);
            }
        }
        match parse_i64(self.buffer.as_str()) {
            Some(v) => v,
            None => previous,
        }
    }
}

/// The tail of a modal buffer that fits the visible width: when the text
/// is wider than the window, the most recent characters are shown.
pub fn visible_tail(s: &str, width: usize) -> (r: String)
    ensures
        r@ == (if s@.len() > width {
            s@.skip(s@.len() - width)
        } else {
            s@
        }),
{
    let n = s.unicode_len();
    if n > width {
        let t = s.substring_char(n - width, n);
        t.to_owned()
    } else {
        s.to_owned()
    }
}

} // verus!

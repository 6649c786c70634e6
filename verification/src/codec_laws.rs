//! What the document codec guarantees: everything the parser accepts
//! satisfies the store invariant and fits the machine types, and printing
//! a configuration and parsing it back yields exactly the configuration
//! that was printed.

use vstd::prelude::*;

use crate::codec::esc;
use crate::codec::esc_char;
use crate::codec::lit_at;
use crate::codec::parse_bool;
use crate::codec::parse_bool_members;
use crate::codec::parse_choice_members;
use crate::codec::parse_document;
use crate::codec::parse_document_member;
use crate::codec::parse_document_rest;
use crate::codec::parse_entries;
use crate::codec::parse_entries_rest;
use crate::codec::parse_entry;
use crate::codec::parse_entry_member;
use crate::codec::parse_entry_rest;
use crate::codec::parse_int_members;
use crate::codec::parse_number;
use crate::codec::parse_string;
use crate::codec::parse_string_array;
use crate::codec::parse_string_body;
use crate::codec::parse_strings_rest;
use crate::codec::parse_text_members;
use crate::codec::parse_value;
use crate::codec::print_document;
use crate::codec::print_entries;
use crate::codec::print_entries_tail;
use crate::codec::print_entry;
use crate::codec::print_string;
use crate::codec::print_string_array;
use crate::codec::print_strings_tail;
use crate::codec::print_value;
use crate::codec::skip_ws;
use crate::codec::unescape_char;
use crate::model::ConfigModel;
use crate::model::EntryModel;
use crate::model::ValueModel;

verus! {

/// A value's numbers fit the machine types the store uses.
pub open spec fn value_in_range(v: ValueModel) -> bool {
    match v {
        ValueModel::Integer { value } => i64::MIN <= value <= i64::MAX,
        ValueModel::Text { maximum_size, .. } => match maximum_size {
            Some(m) => 0 <= m <= usize::MAX,
            None => true,
        },
        ValueModel::Choice { selected, .. } => 0 <= selected <= usize::MAX,
        ValueModel::Color { selected, .. } => 0 <= selected <= usize::MAX,
        _ => true,
    }
}

pub open spec fn model_in_range(m: ConfigModel) -> bool {
    forall|i: int|
        0 <= i < m.entries.len() ==> value_in_range(#[trigger] m.entries[i].value)
}

pub proof fn lemma_skip_ws(s: Seq<char>, i: int)
    requires
        0 <= i <= s.len(),
    ensures
        i <= skip_ws(s, i) <= s.len(),
    decreases s.len() - i,
{
    if i < s.len() && crate::codec::is_ws(s[i]) {
        lemma_skip_ws(s, i + 1);
    }
}

proof fn lemma_parse_choice_members_sound(
    s: Seq<char>,
    i: int,
    color: bool,
    options: Option<Seq<Seq<char>>>,
    selected: Option<int>,
)
    requires
        0 <= i <= s.len(),
        match selected {
            Some(v) => 0 <= v <= usize::MAX,
            None => true,
        },
    ensures
        match parse_choice_members(s, i, color, options, selected) {
            Some((v, j)) => v.wf() && value_in_range(v),
            None => true,
        },
    decreases s.len() - i,
{
    lemma_skip_ws(s, i);
    let j = skip_ws(s, i);
    if j < s.len() && s[j] == '}' {
    } else if j < s.len() && s[j] == ',' {
        lemma_skip_ws(s, j + 1);
        let k = skip_ws(s, j + 1);
        match parse_string(s, k) {
            Some((key, k2)) => {
                let k3 = skip_ws(s, if 0 <= k2 <= s.len() {
                    k2
                } else {
                    s.len() as int
                });
                if k3 < s.len() && s[k3] == ':' {
                    lemma_skip_ws(s, if 0 <= k2 <= s.len() {
                        k2
                    } else {
                        s.len() as int
                    });
                    let k4 = skip_ws(s, k3 + 1);
                    if key == "options"@ && options is None {
                        match parse_string_array(s, k4) {
                            Some((opts, k5)) => {
                                if i < k5 <= s.len() {
                                    lemma_parse_choice_members_sound(
                                        s,
                                        k5,
                                        color,
                                        Some(opts),
                                        selected,
                                    );
                                }
                            },
                            None => {},
                        }
                    } else if key == "selected"@ && selected is None {
                        match parse_number(s, k4) {
                            Some((v, k5)) => {
                                if 0 <= v <= usize::MAX && i < k5 <= s.len() {
                                    lemma_parse_choice_members_sound(
                                        s,
                                        k5,
                                        color,
                                        options,
                                        Some(v),
                                    );
                                }
                            },
                            None => {},
                        }
                    }
                }
            },
            None => {},
        }
    }
}

proof fn lemma_parse_text_members_sound(
    s: Seq<char>,
    i: int,
    value: Option<Seq<char>>,
    max: Option<Option<int>>,
)
    requires
        0 <= i <= s.len(),
        match max {
            Some(Some(v)) => 0 <= v <= usize::MAX,
            _ => true,
        },
    ensures
        match parse_text_members(s, i, value, max) {
            Some((v, j)) => v.wf() && value_in_range(v),
            None => true,
        },
    decreases s.len() - i,
{
    lemma_skip_ws(s, i);
    let j = skip_ws(s, i);
    if j < s.len() && s[j] == '}' {
    } else if j < s.len() && s[j] == ',' {
        lemma_skip_ws(s, j + 1);
        let k = skip_ws(s, j + 1);
        match parse_string(s, k) {
            Some((key, k2)) => {
                let k2c = if 0 <= k2 <= s.len() {
                    k2
                } else {
                    s.len() as int
                };
                lemma_skip_ws(s, k2c);
                let k3 = skip_ws(s, k2c);
                if k3 < s.len() && s[k3] == ':' {
                    let k4 = skip_ws(s, k3 + 1);
                    if key == "value"@ && value is None {
                        match parse_string(s, k4) {
                            Some((sv, k5)) => {
                                if i < k5 <= s.len() {
                                    lemma_parse_text_members_sound(s, k5, Some(sv), max);
                                }
                            },
                            None => {},
                        }
                    } else if key == "maximum_size"@ && max is None {
                        if lit_at(s, k4, "null"@) {
                            if i < k4 + 4 && k4 + 4 <= s.len() {
                                lemma_parse_text_members_sound(s, k4 + 4, value, Some(None));
                            }
                        } else {
                            match parse_number(s, k4) {
                                Some((v, k5)) => {
                                    if 0 <= v <= usize::MAX && i < k5 <= s.len() {
                                        lemma_parse_text_members_sound(
                                            s,
                                            k5,
                                            value,
                                            Some(Some(v)),
                                        );
                                    }
                                },
                                None => {},
                            }
                        }
                    }
                }
            },
            None => {},
        }
    }
}

proof fn lemma_parse_int_members_sound(s: Seq<char>, i: int, value: Option<int>)
    requires
        0 <= i <= s.len(),
        match value {
            Some(v) => i64::MIN <= v <= i64::MAX,
            None => true,
        },
    ensures
        match parse_int_members(s, i, value) {
            Some((v, j)) => v.wf() && value_in_range(v),
            None => true,
        },
    decreases s.len() - i,
{
    lemma_skip_ws(s, i);
    let j = skip_ws(s, i);
    if j < s.len() && s[j] == '}' {
    } else if j < s.len() && s[j] == ',' {
        lemma_skip_ws(s, j + 1);
        let k = skip_ws(s, j + 1);
        match parse_string(s, k) {
            Some((key, k2)) => {
                let k2c = if 0 <= k2 <= s.len() {
                    k2
                } else {
                    s.len() as int
                };
                lemma_skip_ws(s, k2c);
                let k3 = skip_ws(s, k2c);
                if k3 < s.len() && s[k3] == ':' {
                    let k4 = skip_ws(s, k3 + 1);
                    if key == "value"@ && value is None {
                        match parse_number(s, k4) {
                            Some((v, k5)) => {
                                if i64::MIN <= v <= i64::MAX && i < k5 <= s.len() {
                                    lemma_parse_int_members_sound(s, k5, Some(v));
                                }
                            },
                            None => {},
                        }
                    }
                }
            },
            None => {},
        }
    }
}

proof fn lemma_parse_bool_members_sound(s: Seq<char>, i: int, value: Option<bool>)
    requires
        0 <= i <= s.len(),
    ensures
        match parse_bool_members(s, i, value) {
            Some((v, j)) => v.wf() && value_in_range(v),
            None => true,
        },
    decreases s.len() - i,
{
    lemma_skip_ws(s, i);
    let j = skip_ws(s, i);
    if j < s.len() && s[j] == '}' {
    } else if j < s.len() && s[j] == ',' {
        lemma_skip_ws(s, j + 1);
        let k = skip_ws(s, j + 1);
        match parse_string(s, k) {
            Some((key, k2)) => {
                let k2c = if 0 <= k2 <= s.len() {
                    k2
                } else {
                    s.len() as int
                };
                lemma_skip_ws(s, k2c);
                let k3 = skip_ws(s, k2c);
                if k3 < s.len() && s[k3] == ':' {
                    let k4 = skip_ws(s, k3 + 1);
                    if key == "value"@ && value is None {
                        match parse_bool(s, k4) {
                            Some((v, k5)) => {
                                if i < k5 <= s.len() {
                                    lemma_parse_bool_members_sound(s, k5, Some(v));
                                }
                            },
                            None => {},
                        }
                    }
                }
            },
            None => {},
        }
    }
}

/// Every value the parser accepts is well-formed and fits the machine
/// types.
pub proof fn lemma_parse_value_sound(s: Seq<char>, i: int)
    requires
        0 <= i <= s.len(),
    ensures
        match parse_value(s, i) {
            Some((v, j)) => v.wf() && value_in_range(v),
            None => true,
        },
{
    if 0 <= i < s.len() && s[i] == '{' {
        lemma_skip_ws(s, i + 1);
        let j = skip_ws(s, i + 1);
        match parse_string(s, j) {
            Some((k, j2)) => {
                if k == "kind"@ {
                    let j2c = if 0 <= j2 <= s.len() {
                        j2
                    } else {
                        s.len() as int
                    };
                    lemma_skip_ws(s, j2c);
                    let j3 = skip_ws(s, j2c);
                    if j3 < s.len() && s[j3] == ':' {
                        lemma_skip_ws(s, j3 + 1);
                        let j4 = skip_ws(s, j3 + 1);
                        match parse_string(s, j4) {
                            Some((kind, j5)) => {
                                if 0 <= j5 <= s.len() {
                                    {
                                        lemma_parse_text_members_sound(s, j5, None, None);
                                        lemma_parse_choice_members_sound(
                                            s,
                                            j5,
                                            false,
                                            None,
                                            None,
                                        );
                                        lemma_parse_choice_members_sound(s, j5, true, None, None);
                                        lemma_parse_int_members_sound(s, j5, None);
                                        lemma_parse_bool_members_sound(s, j5, None);
                                    }
                                }
                            },
                            None => {},
                        }
                    }
                }
            },
            None => {},
        }
    }
}

proof fn lemma_parse_entry_rest_sound(
    s: Seq<char>,
    i: int,
    key: Option<Seq<char>>,
    value: Option<ValueModel>,
)
    requires
        0 <= i <= s.len(),
        match value {
            Some(v) => v.wf() && value_in_range(v),
            None => true,
        },
    ensures
        match parse_entry_rest(s, i, key, value) {
            Some((e, j)) => e.value.wf() && value_in_range(e.value),
            None => true,
        },
    decreases s.len() - i,
{
    lemma_skip_ws(s, i);
    let j = skip_ws(s, i);
    if j < s.len() && s[j] == '}' {
    } else if j < s.len() && s[j] == ',' {
        lemma_skip_ws(s, j + 1);
        let k = skip_ws(s, j + 1);
        match parse_entry_member(s, k, key, value) {
            Some((key2, value2, k2)) => {
                if i < k2 <= s.len() {
                    lemma_parse_entry_member_sound(s, k, key, value);
                    lemma_parse_entry_rest_sound(s, k2, key2, value2);
                }
            },
            None => {},
        }
    }
}

proof fn lemma_parse_entry_member_sound(
    s: Seq<char>,
    i: int,
    key: Option<Seq<char>>,
    value: Option<ValueModel>,
)
    requires
        0 <= i <= s.len(),
        match value {
            Some(v) => v.wf() && value_in_range(v),
            None => true,
        },
    ensures
        match parse_entry_member(s, i, key, value) {
            Some((key2, value2, j)) => match value2 {
                Some(v) => v.wf() && value_in_range(v),
                None => true,
            },
            None => true,
        },
{
    match parse_string(s, i) {
        Some((name, k2)) => {
            let k2c = if 0 <= k2 <= s.len() {
                k2
            } else {
                s.len() as int
            };
            lemma_skip_ws(s, k2c);
            let k3 = skip_ws(s, k2c);
            if k3 < s.len() && s[k3] == ':' {
                lemma_skip_ws(s, k3 + 1);
                let k4 = skip_ws(s, k3 + 1);
                lemma_parse_value_sound(s, k4);
            }
        },
        None => {},
    }
}

/// Every entry the parser accepts carries a well-formed, machine-ranged
/// value.
pub proof fn lemma_parse_entry_sound(s: Seq<char>, i: int)
    requires
        0 <= i <= s.len(),
    ensures
        match parse_entry(s, i) {
            Some((e, j)) => e.value.wf() && value_in_range(e.value),
            None => true,
        },
{
    if 0 <= i < s.len() && s[i] == '{' {
        lemma_skip_ws(s, i + 1);
        let j = skip_ws(s, i + 1);
        match parse_entry_member(s, j, None, None) {
            Some((key, value, k2)) => {
                if i < k2 <= s.len() {
                    lemma_parse_entry_member_sound(s, j, None, None);
                    lemma_parse_entry_rest_sound(s, k2, key, value);
                }
            },
            None => {},
        }
    }
}

proof fn lemma_parse_entries_rest_sound(s: Seq<char>, i: int, acc: Seq<EntryModel>)
    requires
        0 <= i <= s.len(),
        forall|l: int|
            0 <= l < acc.len() ==> (#[trigger] acc[l].value).wf() && value_in_range(acc[l].value),
    ensures
        match parse_entries_rest(s, i, acc) {
            Some((es, j)) => forall|l: int|
                0 <= l < es.len() ==> (#[trigger] es[l].value).wf() && value_in_range(
                    es[l].value,
                ),
            None => true,
        },
    decreases s.len() - i,
{
    lemma_skip_ws(s, i);
    let j = skip_ws(s, i);
    if j < s.len() && s[j] == ']' {
    } else if j < s.len() && s[j] == ',' {
        lemma_skip_ws(s, j + 1);
        let k = skip_ws(s, j + 1);
        match parse_entry(s, k) {
            Some((e, k2)) => {
                if i < k2 <= s.len() {
                    lemma_parse_entry_sound(s, k);
                    lemma_parse_entries_rest_sound(s, k2, acc.push(e));
                }
            },
            None => {},
        }
    }
}

/// Every entry list the parser accepts is well-formed throughout.
pub proof fn lemma_parse_entries_sound(s: Seq<char>, i: int)
    requires
        0 <= i <= s.len(),
    ensures
        match parse_entries(s, i) {
            Some((es, j)) => forall|l: int|
                0 <= l < es.len() ==> (#[trigger] es[l].value).wf() && value_in_range(
                    es[l].value,
                ),
            None => true,
        },
{
    if 0 <= i < s.len() && s[i] == '[' {
        lemma_skip_ws(s, i + 1);
        let j = skip_ws(s, i + 1);
        if j < s.len() && s[j] == ']' {
        } else {
            match parse_entry(s, j) {
                Some((e, k)) => {
                    if i < k <= s.len() {
                        lemma_parse_entry_sound(s, j);
                        lemma_parse_entries_rest_sound(s, k, seq![e]);
                    }
                },
                None => {},
            }
        }
    }
}

proof fn lemma_parse_document_rest_sound(
    s: Seq<char>,
    i: int,
    filename: Option<Seq<char>>,
    entries: Option<Seq<EntryModel>>,
)
    requires
        0 <= i <= s.len(),
        match entries {
            Some(es) => forall|l: int|
                0 <= l < es.len() ==> (#[trigger] es[l].value).wf() && value_in_range(
                    es[l].value,
                ),
            None => true,
        },
    ensures
        match parse_document_rest(s, i, filename, entries) {
            Some((m, j)) => m.wf() && model_in_range(m),
            None => true,
        },
    decreases s.len() - i,
{
    lemma_skip_ws(s, i);
    let j = skip_ws(s, i);
    if j < s.len() && s[j] == '}' {
    } else if j < s.len() && s[j] == ',' {
        lemma_skip_ws(s, j + 1);
        let k = skip_ws(s, j + 1);
        match parse_document_member(s, k, filename, entries) {
            Some((f2, e2, k2)) => {
                if i < k2 <= s.len() {
                    lemma_parse_document_member_sound(s, k, filename, entries);
                    lemma_parse_document_rest_sound(s, k2, f2, e2);
                }
            },
            None => {},
        }
    }
}

proof fn lemma_parse_document_member_sound(
    s: Seq<char>,
    i: int,
    filename: Option<Seq<char>>,
    entries: Option<Seq<EntryModel>>,
)
    requires
        0 <= i <= s.len(),
        match entries {
            Some(es) => forall|l: int|
                0 <= l < es.len() ==> (#[trigger] es[l].value).wf() && value_in_range(
                    es[l].value,
                ),
            None => true,
        },
    ensures
        match parse_document_member(s, i, filename, entries) {
            Some((f2, e2, j)) => match e2 {
                Some(es) => forall|l: int|
                    0 <= l < es.len() ==> (#[trigger] es[l].value).wf() && value_in_range(
                        es[l].value,
                    ),
                None => true,
            },
            None => true,
        },
{
    match parse_string(s, i) {
        Some((name, k2)) => {
            let k2c = if 0 <= k2 <= s.len() {
                k2
            } else {
                s.len() as int
            };
            lemma_skip_ws(s, k2c);
            let k3 = skip_ws(s, k2c);
            if k3 < s.len() && s[k3] == ':' {
                lemma_skip_ws(s, k3 + 1);
                let k4 = skip_ws(s, k3 + 1);
                lemma_parse_entries_sound(s, k4);
            }
        },
        None => {},
    }
}

/// Every document the parser accepts satisfies the store invariant, and
/// its numbers fit the machine types.
pub proof fn lemma_parse_document_sound(s: Seq<char>)
    ensures
        match parse_document(s) {
            Some(m) => m.wf() && model_in_range(m),
            None => true,
        },
{
    lemma_skip_ws(s, 0);
    let i = skip_ws(s, 0);
    if i < s.len() && s[i] == '{' {
        lemma_skip_ws(s, i + 1);
        let j = skip_ws(s, i + 1);
        match parse_document_member(s, j, None, None) {
            Some((f, es, k2)) => {
                if i < k2 <= s.len() {
                    lemma_parse_document_member_sound(s, j, None, None);
                    lemma_parse_document_rest_sound(s, k2, f, es);
                }
            },
            None => {},
        }
    }
}


/// Text standing at a position decomposes over concatenation.
proof fn lemma_lit_at_concat(s: Seq<char>, i: int, a: Seq<char>, b: Seq<char>)
    requires
        lit_at(s, i, a + b),
    ensures
        lit_at(s, i, a),
        lit_at(s, i + a.len(), b),
{
    assert(s.subrange(i, i + a.len()) =~= a) by {
        assert forall|k: int| 0 <= k < a.len() implies s.subrange(i, i + a.len())[k] == a[k] by {
            assert(s.subrange(i, i + (a + b).len())[k] == (a + b)[k]);
        }
    }
    assert(s.subrange(i + a.len(), i + a.len() + b.len()) =~= b) by {
        assert forall|k: int|
            0 <= k < b.len() implies s.subrange(i + a.len(), i + a.len() + b.len())[k] == b[k] by {
            assert(s.subrange(i, i + (a + b).len())[a.len() + k] == (a + b)[a.len() + k]);
        }
    }
}

/// Text standing at a position fixes the characters there.
proof fn lemma_lit_at_index(s: Seq<char>, i: int, t: Seq<char>, k: int)
    requires
        lit_at(s, i, t),
        0 <= k < t.len(),
    ensures
        s[i + k] == t[k],
        i + k < s.len(),
{
    assert(s.subrange(i, i + t.len())[k] == t[k]);
}

/// Parsing a printed, escaped string body gives back the original text.
proof fn lemma_parse_print_string_body(s: Seq<char>, i: int, t: Seq<char>)
    requires
        lit_at(s, i, esc(t) + seq!['"']),
    ensures
        parse_string_body(s, i) == Some((t, i + esc(t).len() + 1)),
    decreases t.len(),
{
    if t.len() == 0 {
        assert(esc(t) =~= Seq::<char>::empty());
        assert((esc(t) + seq!['"'])[0] == '"');
        lemma_lit_at_index(s, i, esc(t) + seq!['"'], 0);
        assert(s[i] == '"');
        assert(parse_string_body(s, i) == Some((Seq::<char>::empty(), i + 1)));
        assert(t =~= Seq::<char>::empty());
    } else {
        let c = t[0];
        let rest = t.drop_first();
        assert(esc(t) == esc_char(c) + esc(rest));
        assert(esc(t) + seq!['"'] =~= esc_char(c) + (esc(rest) + seq!['"']));
        lemma_lit_at_concat(s, i, esc_char(c), esc(rest) + seq!['"']);
        if c == '"' || c == '\\' || c == '\n' || c == '\r' || c == '\t' {
            assert(esc_char(c).len() == 2);
            lemma_lit_at_index(s, i, esc_char(c), 0);
            lemma_lit_at_index(s, i, esc_char(c), 1);
            assert(s[i] == '\\');
            assert(unescape_char(s[i + 1]) == Some(c));
            lemma_parse_print_string_body(s, i + 2, rest);
            assert(parse_string_body(s, i) == Some(
                (seq![c] + rest, i + 2 + esc(rest).len() + 1),
            ));
            assert(seq![c] + rest =~= t);
        } else {
            assert(esc_char(c) =~= seq![c]);
            lemma_lit_at_index(s, i, esc_char(c), 0);
            assert(s[i] == c);
            lemma_parse_print_string_body(s, i + 1, rest);
            assert(parse_string_body(s, i) == Some(
                (seq![c] + rest, i + 1 + esc(rest).len() + 1),
            ));
            assert(seq![c] + rest =~= t);
        }
    }
}

/// Parsing a printed string gives back the original text.
proof fn lemma_parse_print_string(s: Seq<char>, i: int, t: Seq<char>)
    requires
        lit_at(s, i, print_string(t)),
    ensures
        parse_string(s, i) == Some((t, i + print_string(t).len())),
        print_string(t).len() >= 2,
{
    assert(print_string(t) =~= seq!['"'] + (esc(t) + seq!['"']));
    lemma_lit_at_concat(s, i, seq!['"'], esc(t) + seq!['"']);
    lemma_lit_at_index(s, i, seq!['"'], 0);
    lemma_parse_print_string_body(s, i + 1, t);
}

/// Parsing a printed decimal, with no digit running on after it, gives
/// back the number.
proof fn lemma_parse_print_number(s: Seq<char>, i: int, x: int)
    requires
        lit_at(s, i, crate::digits::dec_int_chars(x)),
        i + crate::digits::dec_int_chars(x).len() == s.len() || !crate::digits::is_dec_digit(
            s[i + crate::digits::dec_int_chars(x).len()],
        ),
    ensures
        parse_number(s, i) == Some((x, i + crate::digits::dec_int_chars(x).len())),
{
    let d = crate::digits::dec_int_chars(x);
    if x < 0 {
        let mag = crate::digits::dec_nat_chars((-x) as nat);
        crate::digits::lemma_dec_nat_chars((-x) as nat);
        assert(d == seq!['-'] + mag);
        lemma_lit_at_concat(s, i, seq!['-'], mag);
        lemma_lit_at_index(s, i, seq!['-'], 0);
        assert(s[i] == '-');
        assert forall|k: int|
            i + 1 <= k < i + 1 + mag.len() implies crate::digits::is_dec_digit(
            #[trigger] s[k],
        ) by {
            lemma_lit_at_index(s, i + 1, mag, k - i - 1);
        }
        crate::digits::lemma_digits_end_of_range(s, i + 1, i + 1 + mag.len() as int);
        assert(s.subrange(i + 1, i + 1 + mag.len() as int) =~= mag);
        assert(crate::digits::digits_val(mag) == -x);
        assert(mag.len() >= 1);
    } else {
        let mag = crate::digits::dec_nat_chars(x as nat);
        crate::digits::lemma_dec_nat_chars(x as nat);
        assert(d == mag);
        assert forall|k: int|
            i <= k < i + mag.len() implies crate::digits::is_dec_digit(#[trigger] s[k]) by {
            lemma_lit_at_index(s, i, mag, k - i);
        }
        lemma_lit_at_index(s, i, mag, 0);
        assert(crate::digits::is_dec_digit(s[i]));
        assert(s[i] != '-');
        crate::digits::lemma_digits_end_of_range(s, i, i + mag.len() as int);
        assert(s.subrange(i, i + mag.len() as int) =~= mag);
        assert(crate::digits::digits_val(mag) == x);
        assert(mag.len() >= 1);
    }
}

/// Parsing the printed tail of a string array appends the remaining
/// options to what was already collected.
proof fn lemma_rt_strings_tail(s: Seq<char>, i: int, acc: Seq<Seq<char>>, rest: Seq<Seq<char>>)
    requires
        lit_at(s, i, print_strings_tail(rest)),
    ensures
        parse_strings_rest(s, i, acc) == Some((acc + rest, i + print_strings_tail(rest).len())),
    decreases rest.len(),
{
    if rest.len() == 0 {
        assert(print_strings_tail(rest) == seq![']']);
        lemma_lit_at_index(s, i, seq![']'], 0);
        assert(s[i] == ']');
        assert(!crate::codec::is_ws(s[i]));
        assert(skip_ws(s, i) == i);
        assert(acc + rest =~= acc);
    } else {
        let o = rest[0];
        let tail = rest.drop_first();
        assert(print_strings_tail(rest) == seq![','] + print_string(o) + print_strings_tail(
            tail,
        ));
        assert(print_strings_tail(rest) =~= seq![','] + (print_string(o) + print_strings_tail(
            tail,
        )));
        lemma_lit_at_concat(s, i, seq![','], print_string(o) + print_strings_tail(tail));
        lemma_lit_at_concat(s, i + 1, print_string(o), print_strings_tail(tail));
        lemma_lit_at_index(s, i, seq![','], 0);
        assert(s[i] == ',');
        assert(!crate::codec::is_ws(s[i]));
        assert(skip_ws(s, i) == i);
        lemma_lit_at_index(s, i + 1, print_string(o), 0);
        assert(s[i + 1] == '"');
        assert(!crate::codec::is_ws(s[i + 1]));
        assert(skip_ws(s, i + 1) == i + 1);
        lemma_parse_print_string(s, i + 1, o);
        let k2 = i + 1 + print_string(o).len();
        lemma_rt_strings_tail(s, k2, acc.push(o), tail);
        assert(acc.push(o) + tail =~= acc + rest);
    }
}

/// Parsing a printed string array gives back the options.
proof fn lemma_rt_string_array(s: Seq<char>, i: int, opts: Seq<Seq<char>>)
    requires
        lit_at(s, i, print_string_array(opts)),
    ensures
        parse_string_array(s, i) == Some((opts, i + print_string_array(opts).len())),
        print_string_array(opts).len() >= 2,
{
    if opts.len() == 0 {
        lemma_lit_at_index(s, i, print_string_array(opts), 0);
        lemma_lit_at_index(s, i, print_string_array(opts), 1);
        assert(s[i] == '[');
        assert(s[i + 1] == ']');
        assert(!crate::codec::is_ws(s[i + 1]));
        assert(skip_ws(s, i + 1) == i + 1);
        assert(parse_string_array(s, i) == Some((Seq::<Seq<char>>::empty(), i + 2)));
        assert(opts =~= Seq::<Seq<char>>::empty());
    } else {
        let o = opts[0];
        let tail = opts.drop_first();
        assert(print_string_array(opts) == seq!['['] + print_string(o) + print_strings_tail(
            tail,
        ));
        assert(print_string_array(opts) =~= seq!['['] + (print_string(o) + print_strings_tail(
            tail,
        )));
        lemma_lit_at_concat(s, i, seq!['['], print_string(o) + print_strings_tail(tail));
        lemma_lit_at_concat(s, i + 1, print_string(o), print_strings_tail(tail));
        lemma_lit_at_index(s, i, seq!['['], 0);
        assert(s[i] == '[');
        lemma_lit_at_index(s, i + 1, print_string(o), 0);
        assert(s[i + 1] == '"');
        assert(!crate::codec::is_ws(s[i + 1]));
        assert(skip_ws(s, i + 1) == i + 1);
        lemma_parse_print_string(s, i + 1, o);
        let k = i + 1 + print_string(o).len();
        lemma_rt_strings_tail(s, k, seq![o], tail);
        assert(seq![o] + tail =~= opts);
    }
}


/// A printed member: the separating comma, the quoted member name, and
/// the colon, with the payload following.
proof fn lemma_rt_member_prefix(s: Seq<char>, i: int, name: Seq<char>, payload: Seq<char>)
    requires
        lit_at(s, i, seq![','] + print_string(name) + seq![':'] + payload),
    ensures
        skip_ws(s, i) == i,
        i + 1 <= s.len(),
        s[i] == ',',
        i < s.len(),
        skip_ws(s, i + 1) == i + 1,
        parse_string(s, i + 1) == Some((name, i + 1 + print_string(name).len())),
        i + 1 + print_string(name).len() < s.len(),
        s[i + 1 + print_string(name).len()] == ':',
        skip_ws(s, i + 1 + print_string(name).len()) == i + 1 + print_string(name).len(),
        lit_at(s, i + 2 + print_string(name).len(), payload),
        i + 2 + print_string(name).len() + payload.len() <= s.len(),
        0 <= i,
{
    let ps = print_string(name);
    assert(seq![','] + print_string(name) + seq![':'] + payload =~= seq![','] + (ps + (seq![':']
        + payload)));
    lemma_lit_at_concat(s, i, seq![','], ps + (seq![':'] + payload));
    lemma_lit_at_concat(s, i + 1, ps, seq![':'] + payload);
    lemma_lit_at_concat(s, i + 1 + ps.len(), seq![':'], payload);
    lemma_lit_at_index(s, i, seq![','], 0);
    lemma_lit_at_index(s, i + 1 + ps.len(), seq![':'], 0);
    lemma_parse_print_string(s, i + 1, name);
    lemma_lit_at_index(s, i + 1, ps, 0);
    assert(ps[0] == '"');
    assert(s[i + 1] == '"');
}

/// Parsing the printed members of a text value yields that value.
proof fn lemma_rt_text_members(s: Seq<char>, i: int, v: Seq<char>, max: Option<int>)
    requires
        lit_at(
            s,
            i,
            seq![','] + print_string("value"@) + seq![':'] + print_string(v) + (seq![',']
                + print_string("maximum_size"@) + seq![':'] + (match max {
                Some(m) => crate::digits::dec_int_chars(m),
                None => "null"@,
            }) + seq!['}']),
        ),
        match max {
            Some(m) => 0 <= m <= usize::MAX,
            None => true,
        },
    ensures
        parse_text_members(s, i, None, None) == Some(
            (
                ValueModel::Text { value: v, maximum_size: max },
                i + (seq![','] + print_string("value"@) + seq![':'] + print_string(v) + (seq![
                    ','
                ] + print_string("maximum_size"@) + seq![':'] + (match max {
                    Some(m) => crate::digits::dec_int_chars(m),
                    None => "null"@,
                }) + seq!['}'])).len(),
            ),
        ),
{
    reveal_strlit("value");
    reveal_strlit("maximum_size");
    reveal_strlit("null");
    let maxrep = match max {
        Some(m) => crate::digits::dec_int_chars(m),
        None => "null"@,
    };
    let tail2 = seq![','] + print_string("maximum_size"@) + seq![':'] + maxrep + seq!['}'];
    assert(seq![','] + print_string("value"@) + seq![':'] + print_string(v) + tail2 =~= seq![',']
        + print_string("value"@) + seq![':'] + (print_string(v) + tail2));
    lemma_rt_member_prefix(s, i, "value"@, print_string(v) + tail2);
    let p0 = i + 2 + print_string("value"@).len();
    lemma_lit_at_concat(s, p0, print_string(v), tail2);
    lemma_parse_print_string(s, p0, v);
    lemma_lit_at_index(s, p0, print_string(v), 0);
    assert(s[p0] == '"');
    assert(skip_ws(s, p0) == p0);
    let p1 = p0 + print_string(v).len();
    assert("value"@ != "maximum_size"@);
    // Second member: the cap, or null.
    assert(tail2 =~= seq![','] + print_string("maximum_size"@) + seq![':'] + (maxrep + seq![
        '}'
    ]));
    lemma_rt_member_prefix(s, p1, "maximum_size"@, maxrep + seq!['}']);
    let p2 = p1 + 2 + print_string("maximum_size"@).len();
    lemma_lit_at_concat(s, p2, maxrep, seq!['}']);
    let p3 = p2 + maxrep.len();
    lemma_lit_at_index(s, p3, seq!['}'], 0);
    assert(s[p3] == '}');
    assert(skip_ws(s, p3) == p3);
    match max {
        Some(m) => {
            crate::digits::lemma_dec_int_chars(m);
            lemma_lit_at_index(s, p2, maxrep, 0);
            assert(crate::digits::is_int_literal(maxrep));
            if lit_at(s, p2, "null"@) {
                lemma_lit_at_index(s, p2, "null"@, 0);
                assert(s[p2] == 'n');
                assert(maxrep[0] == 'n');
                assert(!crate::digits::is_dec_digit('n'));
                assert(maxrep[0] == '-' || crate::digits::is_dec_digit(maxrep[0]));
                assert(false);
            }
            lemma_parse_print_number(s, p2, m);
            assert(parse_number(s, p2) == Some((m as int, p3)));
            assert(skip_ws(s, p2) == p2);
        },
        None => {
            assert(maxrep == "null"@);
            assert(lit_at(s, p2, "null"@));
            assert(skip_ws(s, p2) == p2) by {
                lemma_lit_at_index(s, p2, "null"@, 0);
            }
        },
    }
    // Walk the three steps of the member loop.
    assert(parse_text_members(s, p3, Some(v), Some(max)) == Some(
        (ValueModel::Text { value: v, maximum_size: max }, p3 + 1),
    ));
    assert(parse_text_members(s, p1, Some(v), None) == Some(
        (ValueModel::Text { value: v, maximum_size: max }, p3 + 1),
    ));
    assert(parse_text_members(s, i, None, None) == Some(
        (ValueModel::Text { value: v, maximum_size: max }, p3 + 1),
    ));
}

/// Parsing the printed member of an integer value yields that value.
proof fn lemma_rt_int_members(s: Seq<char>, i: int, v: int)
    requires
        lit_at(
            s,
            i,
            seq![','] + print_string("value"@) + seq![':'] + crate::digits::dec_int_chars(v)
                + seq!['}'],
        ),
        i64::MIN <= v <= i64::MAX,
    ensures
        parse_int_members(s, i, None) == Some(
            (
                ValueModel::Integer { value: v },
                i + (seq![','] + print_string("value"@) + seq![':']
                    + crate::digits::dec_int_chars(v) + seq!['}']).len(),
            ),
        ),
{
    reveal_strlit("value");
    let d = crate::digits::dec_int_chars(v);
    assert(seq![','] + print_string("value"@) + seq![':'] + d + seq!['}'] =~= seq![',']
        + print_string("value"@) + seq![':'] + (d + seq!['}']));
    lemma_rt_member_prefix(s, i, "value"@, d + seq!['}']);
    let p0 = i + 2 + print_string("value"@).len();
    lemma_lit_at_concat(s, p0, d, seq!['}']);
    let p1 = p0 + d.len();
    lemma_lit_at_index(s, p1, seq!['}'], 0);
    assert(s[p1] == '}');
    assert(skip_ws(s, p1) == p1);
    lemma_parse_print_number(s, p0, v);
    assert(skip_ws(s, p0) == p0) by {
        crate::digits::lemma_dec_int_chars(v);
        lemma_lit_at_index(s, p0, d, 0);
    }
    assert(parse_int_members(s, p1, Some(v)) == Some((ValueModel::Integer { value: v }, p1 + 1)));
    assert(parse_int_members(s, i, None) == Some((ValueModel::Integer { value: v }, p1 + 1)));
}

/// Parsing the printed member of a boolean value yields that value.
proof fn lemma_rt_bool_members(s: Seq<char>, i: int, v: bool)
    requires
        lit_at(
            s,
            i,
            seq![','] + print_string("value"@) + seq![':'] + (if v {
                "true"@
            } else {
                "false"@
            }) + seq!['}'],
        ),
    ensures
        parse_bool_members(s, i, None) == Some(
            (
                ValueModel::Boolean { value: v },
                i + (seq![','] + print_string("value"@) + seq![':'] + (if v {
                    "true"@
                } else {
                    "false"@
                }) + seq!['}']).len(),
            ),
        ),
{
    reveal_strlit("value");
    reveal_strlit("true");
    reveal_strlit("false");
    let b = if v {
        "true"@
    } else {
        "false"@
    };
    assert(seq![','] + print_string("value"@) + seq![':'] + b + seq!['}'] =~= seq![',']
        + print_string("value"@) + seq![':'] + (b + seq!['}']));
    lemma_rt_member_prefix(s, i, "value"@, b + seq!['}']);
    let p0 = i + 2 + print_string("value"@).len();
    lemma_lit_at_concat(s, p0, b, seq!['}']);
    let p1 = p0 + b.len();
    lemma_lit_at_index(s, p1, seq!['}'], 0);
    assert(s[p1] == '}');
    assert(skip_ws(s, p1) == p1);
    assert(skip_ws(s, p0) == p0) by {
        lemma_lit_at_index(s, p0, b, 0);
    }
    if v {
        assert(lit_at(s, p0, "true"@));
        assert(parse_bool(s, p0) == Some((true, p0 + 4)));
    } else {
        assert(lit_at(s, p0, "false"@));
        if lit_at(s, p0, "true"@) {
            lemma_lit_at_index(s, p0, "true"@, 0);
            lemma_lit_at_index(s, p0, "false"@, 0);
            assert(false);
        }
        assert(parse_bool(s, p0) == Some((false, p0 + 5)));
    }
    assert(parse_bool_members(s, p1, Some(v)) == Some((ValueModel::Boolean { value: v }, p1 + 1)));
    assert(parse_bool_members(s, i, None) == Some((ValueModel::Boolean { value: v }, p1 + 1)));
}

/// Parsing the printed members of a choice-like value yields that value.
proof fn lemma_rt_choice_members(
    s: Seq<char>,
    i: int,
    color: bool,
    opts: Seq<Seq<char>>,
    sel: int,
)
    requires
        lit_at(
            s,
            i,
            seq![','] + print_string("options"@) + seq![':'] + print_string_array(opts) + (seq![
                ','
            ] + print_string("selected"@) + seq![':'] + crate::digits::dec_int_chars(sel) + seq![
                '}'
            ]),
        ),
        0 <= sel <= usize::MAX,
        (opts.len() == 0 && sel == 0) || sel < opts.len(),
    ensures
        parse_choice_members(s, i, color, None, None) == Some(
            (
                if color {
                    ValueModel::Color { options: opts, selected: sel }
                } else {
                    ValueModel::Choice { options: opts, selected: sel }
                },
                i + (seq![','] + print_string("options"@) + seq![':'] + print_string_array(opts)
                    + (seq![','] + print_string("selected"@) + seq![':']
                    + crate::digits::dec_int_chars(sel) + seq!['}'])).len(),
            ),
        ),
{
    reveal_strlit("options");
    reveal_strlit("selected");
    let d = crate::digits::dec_int_chars(sel);
    let tail2 = seq![','] + print_string("selected"@) + seq![':'] + d + seq!['}'];
    assert(seq![','] + print_string("options"@) + seq![':'] + print_string_array(opts) + tail2
        =~= seq![','] + print_string("options"@) + seq![':'] + (print_string_array(opts)
        + tail2));
    lemma_rt_member_prefix(s, i, "options"@, print_string_array(opts) + tail2);
    let p0 = i + 2 + print_string("options"@).len();
    lemma_lit_at_concat(s, p0, print_string_array(opts), tail2);
    lemma_rt_string_array(s, p0, opts);
    lemma_lit_at_index(s, p0, print_string_array(opts), 0);
    assert(print_string_array(opts)[0] == '[');
    assert(s[p0] == '[');
    assert(skip_ws(s, p0) == p0);
    let p1 = p0 + print_string_array(opts).len();
    assert("options"@ != "selected"@);
    assert(tail2 =~= seq![','] + print_string("selected"@) + seq![':'] + (d + seq!['}']));
    lemma_rt_member_prefix(s, p1, "selected"@, d + seq!['}']);
    let p2 = p1 + 2 + print_string("selected"@).len();
    lemma_lit_at_concat(s, p2, d, seq!['}']);
    let p3 = p2 + d.len();
    lemma_lit_at_index(s, p3, seq!['}'], 0);
    assert(s[p3] == '}');
    assert(skip_ws(s, p3) == p3);
    lemma_parse_print_number(s, p2, sel);
    assert(skip_ws(s, p2) == p2) by {
        crate::digits::lemma_dec_int_chars(sel);
        lemma_lit_at_index(s, p2, d, 0);
    }
    let made = if color {
        ValueModel::Color { options: opts, selected: sel }
    } else {
        ValueModel::Choice { options: opts, selected: sel }
    };
    assert(parse_choice_members(s, p3, color, Some(opts), Some(sel)) == Some((made, p3 + 1)));
    assert(parse_choice_members(s, p1, color, Some(opts), None) == Some((made, p3 + 1)));
    assert(parse_choice_members(s, i, color, None, None) == Some((made, p3 + 1)));
}


/// The opening of a printed object: the brace, the quoted first member
/// name, and its colon, with the payload following.
proof fn lemma_rt_first_member_prefix(s: Seq<char>, i: int, name: Seq<char>, payload: Seq<char>)
    requires
        lit_at(s, i, seq!['{'] + print_string(name) + seq![':'] + payload),
    ensures
        0 <= i < s.len(),
        s[i] == '{',
        skip_ws(s, i + 1) == i + 1,
        parse_string(s, i + 1) == Some((name, i + 1 + print_string(name).len())),
        i + 1 + print_string(name).len() < s.len(),
        s[i + 1 + print_string(name).len()] == ':',
        skip_ws(s, i + 1 + print_string(name).len()) == i + 1 + print_string(name).len(),
        lit_at(s, i + 2 + print_string(name).len(), payload),
        i + 2 + print_string(name).len() + payload.len() <= s.len(),
{
    let ps = print_string(name);
    assert(seq!['{'] + print_string(name) + seq![':'] + payload =~= seq!['{'] + (ps + (seq![':']
        + payload)));
    lemma_lit_at_concat(s, i, seq!['{'], ps + (seq![':'] + payload));
    lemma_lit_at_concat(s, i + 1, ps, seq![':'] + payload);
    lemma_lit_at_concat(s, i + 1 + ps.len(), seq![':'], payload);
    lemma_lit_at_index(s, i, seq!['{'], 0);
    lemma_lit_at_index(s, i + 1 + ps.len(), seq![':'], 0);
    lemma_parse_print_string(s, i + 1, name);
    lemma_lit_at_index(s, i + 1, ps, 0);
    assert(ps[0] == '"');
    assert(s[i + 1] == '"');
}

/// Parsing a printed value object yields the value that was printed.
#[verifier::rlimit(100)]
proof fn lemma_rt_value(s: Seq<char>, i: int, v: ValueModel)
    requires
        lit_at(s, i, print_value(v)),
        v.wf(),
        value_in_range(v),
    ensures
        parse_value(s, i) == Some((v, i + print_value(v).len())),
        print_value(v).len() >= 1,
{
    reveal_strlit("kind");
    reveal_strlit("text");
    reveal_strlit("choice");
    reveal_strlit("color");
    reveal_strlit("category");
    reveal_strlit("integer");
    reveal_strlit("boolean");
    match v {
        ValueModel::Text { value, maximum_size } => {
            let tail = seq![','] + print_string("value"@) + seq![':'] + print_string(value) + (
            seq![','] + print_string("maximum_size"@) + seq![':'] + (match maximum_size {
                Some(m) => crate::digits::dec_int_chars(m),
                None => "null"@,
            }) + seq!['}']);
            assert(print_value(v) =~= seq!['{'] + print_string("kind"@) + seq![':']
                + print_string("text"@) + tail);
            assert(seq!['{'] + print_string("kind"@) + seq![':'] + print_string("text"@) + tail
                =~= seq!['{'] + print_string("kind"@) + seq![':'] + (print_string("text"@)
                + tail));
            lemma_rt_first_member_prefix(s, i, "kind"@, print_string("text"@) + tail);
            let q = i + 2 + print_string("kind"@).len();
            lemma_lit_at_concat(s, q, print_string("text"@), tail);
            lemma_parse_print_string(s, q, "text"@);
            let q1 = q + print_string("text"@).len();
            lemma_rt_text_members(s, q1, value, maximum_size);
        },
        ValueModel::Integer { value } => {
            let tail = seq![','] + print_string("value"@) + seq![':']
                + crate::digits::dec_int_chars(value) + seq!['}'];
            assert(print_value(v) =~= seq!['{'] + print_string("kind"@) + seq![':']
                + print_string("integer"@) + tail);
            assert(seq!['{'] + print_string("kind"@) + seq![':'] + print_string("integer"@)
                + tail =~= seq!['{'] + print_string("kind"@) + seq![':'] + (print_string(
                "integer"@,
            ) + tail));
            lemma_rt_first_member_prefix(s, i, "kind"@, print_string("integer"@) + tail);
            let q = i + 2 + print_string("kind"@).len();
            lemma_lit_at_concat(s, q, print_string("integer"@), tail);
            lemma_parse_print_string(s, q, "integer"@);
            let q1 = q + print_string("integer"@).len();
            lemma_rt_int_members(s, q1, value);
            assert("integer"@ != "text"@);
            assert("integer"@ != "choice"@);
            assert("integer"@ != "color"@);
            assert("integer"@ != "category"@);
        },
        ValueModel::Boolean { value } => {
            let tail = seq![','] + print_string("value"@) + seq![':'] + (if value {
                "true"@
            } else {
                "false"@
            }) + seq!['}'];
            assert(print_value(v) =~= seq!['{'] + print_string("kind"@) + seq![':']
                + print_string("boolean"@) + tail);
            assert(seq!['{'] + print_string("kind"@) + seq![':'] + print_string("boolean"@)
                + tail =~= seq!['{'] + print_string("kind"@) + seq![':'] + (print_string(
                "boolean"@,
            ) + tail));
            lemma_rt_first_member_prefix(s, i, "kind"@, print_string("boolean"@) + tail);
            let q = i + 2 + print_string("kind"@).len();
            lemma_lit_at_concat(s, q, print_string("boolean"@), tail);
            lemma_parse_print_string(s, q, "boolean"@);
            let q1 = q + print_string("boolean"@).len();
            lemma_rt_bool_members(s, q1, value);
            assert("boolean"@ != "text"@);
            assert("boolean"@ != "choice"@);
            assert("boolean"@ != "color"@);
            assert("boolean"@ != "category"@);
            assert("boolean"@ != "integer"@);
        },
        ValueModel::Category => {
            assert(print_value(v) =~= seq!['{'] + print_string("kind"@) + seq![':'] + (
            print_string("category"@) + seq!['}']));
            lemma_rt_first_member_prefix(s, i, "kind"@, print_string("category"@) + seq!['}']);
            let q = i + 2 + print_string("kind"@).len();
            lemma_lit_at_concat(s, q, print_string("category"@), seq!['}']);
            lemma_parse_print_string(s, q, "category"@);
            let q1 = q + print_string("category"@).len();
            lemma_lit_at_index(s, q1, seq!['}'], 0);
            assert(s[q1] == '}');
            assert(skip_ws(s, q1) == q1);
            assert("category"@ != "text"@);
            assert("category"@ != "choice"@);
            assert("category"@ != "color"@);
        },
        ValueModel::Choice { options, selected } => {
            let tail = seq![','] + print_string("options"@) + seq![':'] + print_string_array(
                options,
            ) + (seq![','] + print_string("selected"@) + seq![':'] + crate::digits::dec_int_chars(
                selected,
            ) + seq!['}']);
            assert(print_value(v) =~= seq!['{'] + print_string("kind"@) + seq![':']
                + print_string("choice"@) + tail);
            assert(seq!['{'] + print_string("kind"@) + seq![':'] + print_string("choice"@) + tail
                =~= seq!['{'] + print_string("kind"@) + seq![':'] + (print_string("choice"@)
                + tail));
            lemma_rt_first_member_prefix(s, i, "kind"@, print_string("choice"@) + tail);
            let q = i + 2 + print_string("kind"@).len();
            lemma_lit_at_concat(s, q, print_string("choice"@), tail);
            lemma_parse_print_string(s, q, "choice"@);
            let q1 = q + print_string("choice"@).len();
            lemma_rt_choice_members(s, q1, false, options, selected);
            assert("choice"@ != "text"@);
        },
        ValueModel::Color { options, selected } => {
            let tail = seq![','] + print_string("options"@) + seq![':'] + print_string_array(
                options,
            ) + (seq![','] + print_string("selected"@) + seq![':'] + crate::digits::dec_int_chars(
                selected,
            ) + seq!['}']);
            assert(print_value(v) =~= seq!['{'] + print_string("kind"@) + seq![':']
                + print_string("color"@) + tail);
            assert(seq!['{'] + print_string("kind"@) + seq![':'] + print_string("color"@) + tail
                =~= seq!['{'] + print_string("kind"@) + seq![':'] + (print_string("color"@)
                + tail));
            lemma_rt_first_member_prefix(s, i, "kind"@, print_string("color"@) + tail);
            let q = i + 2 + print_string("kind"@).len();
            lemma_lit_at_concat(s, q, print_string("color"@), tail);
            lemma_parse_print_string(s, q, "color"@);
            let q1 = q + print_string("color"@).len();
            lemma_rt_choice_members(s, q1, true, options, selected);
            assert("color"@ != "text"@);
            assert("color"@ != "choice"@);
        },
    }
}

/// Parsing a printed entry object yields the entry that was printed.
proof fn lemma_rt_entry(s: Seq<char>, i: int, e: EntryModel)
    requires
        lit_at(s, i, print_entry(e)),
        e.value.wf(),
        value_in_range(e.value),
    ensures
        parse_entry(s, i) == Some((e, i + print_entry(e).len())),
        print_entry(e).len() >= 1,
{
    reveal_strlit("key");
    reveal_strlit("value");
    let tail = seq![','] + print_string("value"@) + seq![':'] + print_value(e.value) + seq!['}'];
    assert(print_entry(e) =~= seq!['{'] + print_string("key"@) + seq![':'] + (print_string(e.key)
        + tail));
    lemma_rt_first_member_prefix(s, i, "key"@, print_string(e.key) + tail);
    let q = i + 2 + print_string("key"@).len();
    lemma_lit_at_concat(s, q, print_string(e.key), tail);
    lemma_parse_print_string(s, q, e.key);
    let p1 = q + print_string(e.key).len();
    assert(parse_entry_member(s, i + 1, None, None) == Some((Some(e.key), None::<ValueModel>, p1)));
    // Second member: the value object.
    assert(tail =~= seq![','] + print_string("value"@) + seq![':'] + (print_value(e.value) + seq![
        '}'
    ]));
    lemma_rt_member_prefix(s, p1, "value"@, print_value(e.value) + seq!['}']);
    let p2 = p1 + 2 + print_string("value"@).len();
    lemma_lit_at_concat(s, p2, print_value(e.value), seq!['}']);
    lemma_rt_value(s, p2, e.value);
    let p3 = p2 + print_value(e.value).len();
    lemma_lit_at_index(s, p3, seq!['}'], 0);
    assert(s[p3] == '}');
    assert(skip_ws(s, p3) == p3);
    assert(parse_entry_rest(s, p3, Some(e.key), Some(e.value)) == Some(
        (EntryModel { key: e.key, value: e.value }, p3 + 1),
    ));
    assert(parse_entry_rest(s, p1, Some(e.key), None) == Some(
        (EntryModel { key: e.key, value: e.value }, p3 + 1),
    ));
    assert(EntryModel { key: e.key, value: e.value } =~= e);
}

/// Parsing the printed tail of an entry array appends the remaining
/// entries to what was already collected.
#[verifier::rlimit(100)]
proof fn lemma_rt_entries_tail(s: Seq<char>, i: int, acc: Seq<EntryModel>, rest: Seq<EntryModel>)
    requires
        lit_at(s, i, print_entries_tail(rest)),
        forall|l: int|
            0 <= l < rest.len() ==> (#[trigger] rest[l].value).wf() && value_in_range(
                rest[l].value,
            ),
    ensures
        parse_entries_rest(s, i, acc) == Some((acc + rest, i + print_entries_tail(rest).len())),
    decreases rest.len(),
{
    if rest.len() == 0 {
        assert(print_entries_tail(rest) == seq![']']);
        lemma_lit_at_index(s, i, seq![']'], 0);
        assert(s[i] == ']');
        assert(skip_ws(s, i) == i);
        assert(acc + rest =~= acc);
    } else {
        let e = rest[0];
        let tail = rest.drop_first();
        assert(print_entries_tail(rest) == seq![','] + print_entry(e) + print_entries_tail(tail));
        assert(print_entries_tail(rest) =~= seq![','] + (print_entry(e) + print_entries_tail(
            tail,
        )));
        lemma_lit_at_concat(s, i, seq![','], print_entry(e) + print_entries_tail(tail));
        lemma_lit_at_concat(s, i + 1, print_entry(e), print_entries_tail(tail));
        lemma_lit_at_index(s, i, seq![','], 0);
        assert(s[i] == ',');
        assert(skip_ws(s, i) == i);
        lemma_lit_at_index(s, i + 1, print_entry(e), 0);
        assert(print_entry(e)[0] == '{');
        assert(s[i + 1] == '{');
        assert(skip_ws(s, i + 1) == i + 1);
        lemma_rt_entry(s, i + 1, e);
        let k2 = i + 1 + print_entry(e).len();
        assert(forall|l: int|
            0 <= l < tail.len() ==> (#[trigger] tail[l].value).wf() && value_in_range(
                tail[l].value,
            )) by {
            assert(forall|l: int| 0 <= l < tail.len() ==> tail[l] == rest[l + 1]);
        }
        lemma_rt_entries_tail(s, k2, acc.push(e), tail);
        assert(acc.push(e) + tail =~= acc + rest);
    }
}

/// Parsing a printed entry array yields the entries that were printed.
#[verifier::rlimit(100)]
proof fn lemma_rt_entries(s: Seq<char>, i: int, es: Seq<EntryModel>)
    requires
        lit_at(s, i, print_entries(es)),
        forall|l: int|
            0 <= l < es.len() ==> (#[trigger] es[l].value).wf() && value_in_range(es[l].value),
    ensures
        parse_entries(s, i) == Some((es, i + print_entries(es).len())),
        print_entries(es).len() >= 2,
{
    if es.len() == 0 {
        lemma_lit_at_index(s, i, print_entries(es), 0);
        lemma_lit_at_index(s, i, print_entries(es), 1);
        assert(s[i] == '[');
        assert(s[i + 1] == ']');
        assert(skip_ws(s, i + 1) == i + 1);
        assert(parse_entries(s, i) == Some((Seq::<EntryModel>::empty(), i + 2)));
        assert(es =~= Seq::<EntryModel>::empty());
    } else {
        let e = es[0];
        let tail = es.drop_first();
        assert(print_entries(es) == seq!['['] + print_entry(e) + print_entries_tail(tail));
        assert(print_entries(es) =~= seq!['['] + (print_entry(e) + print_entries_tail(tail)));
        lemma_lit_at_concat(s, i, seq!['['], print_entry(e) + print_entries_tail(tail));
        lemma_lit_at_concat(s, i + 1, print_entry(e), print_entries_tail(tail));
        lemma_lit_at_index(s, i, seq!['['], 0);
        assert(s[i] == '[');
        lemma_lit_at_index(s, i + 1, print_entry(e), 0);
        assert(print_entry(e)[0] == '{');
        assert(s[i + 1] == '{');
        assert(skip_ws(s, i + 1) == i + 1);
        lemma_rt_entry(s, i + 1, e);
        let k = i + 1 + print_entry(e).len();
        assert(forall|l: int|
            0 <= l < tail.len() ==> (#[trigger] tail[l].value).wf() && value_in_range(
                tail[l].value,
            )) by {
            assert(forall|l: int| 0 <= l < tail.len() ==> tail[l] == es[l + 1]);
        }
        lemma_rt_entries_tail(s, k, seq![e], tail);
        assert(seq![e] + tail =~= es);
    }
}

/// Printing a well-formed configuration and parsing the print yields the
/// same configuration: the persisted form loses none of its content.
/// The top object's remainder: the entries member and the closing brace.
#[verifier::rlimit(100)]
proof fn lemma_rt_document_rest(s: Seq<char>, p1: int, f: Seq<char>, es: Seq<EntryModel>)
    requires
        lit_at(
            s,
            p1,
            seq![','] + print_string("entries"@) + seq![':'] + print_entries(es) + seq!['}'],
        ),
        forall|l: int|
            0 <= l < es.len() ==> (#[trigger] es[l].value).wf() && value_in_range(es[l].value),
    ensures
        parse_document_rest(s, p1, Some(f), None) == Some(
            (
                ConfigModel { filename: f, entries: es },
                p1 + (seq![','] + print_string("entries"@) + seq![':'] + print_entries(es) + seq![
                    '}'
                ]).len(),
            ),
        ),
{
    reveal_strlit("filename");
    reveal_strlit("entries");
    assert(seq![','] + print_string("entries"@) + seq![':'] + print_entries(es) + seq!['}'] =~=
        seq![','] + print_string("entries"@) + seq![':'] + (print_entries(es) + seq!['}']));
    lemma_rt_member_prefix(s, p1, "entries"@, print_entries(es) + seq!['}']);
    let p2: int = p1 + 2 + print_string("entries"@).len();
    lemma_lit_at_concat(s, p2, print_entries(es), seq!['}']);
    lemma_lit_at_index(s, p2, print_entries(es), 0);
    assert(print_entries(es)[0] == '[');
    assert(s[p2] == '[');
    assert(skip_ws(s, p2) == p2);
    lemma_rt_entries(s, p2, es);
    let p3: int = p2 + print_entries(es).len();
    lemma_lit_at_index(s, p3, seq!['}'], 0);
    assert(s[p3] == '}');
    assert(skip_ws(s, p3) == p3);
    assert("filename"@ != "entries"@);
    assert(parse_document_member(s, p1 + 1, Some(f), None) == Some(
        (Some(f), Some(es), p3),
    ));
    assert(parse_document_rest(s, p3, Some(f), Some(es)) == Some(
        (ConfigModel { filename: f, entries: es }, p3 + 1),
    ));
    assert(parse_document_rest(s, p1, Some(f), None) == Some(
        (ConfigModel { filename: f, entries: es }, p3 + 1),
    ));
}

/// Printing a well-formed configuration and parsing the print yields the
/// same configuration: the persisted form loses none of its content.
#[verifier::rlimit(100)]
pub proof fn lemma_print_parse_document(m: ConfigModel)
    requires
        m.wf(),
        model_in_range(m),
    ensures
        parse_document(print_document(m)) == Some(m),
{
    reveal_strlit("filename");
    reveal_strlit("entries");
    let s = print_document(m);
    let tail = seq![','] + print_string("entries"@) + seq![':'] + print_entries(m.entries) + seq![
        '}'
    ];
    assert(s =~= seq!['{'] + print_string("filename"@) + seq![':'] + (print_string(m.filename)
        + tail));
    assert(lit_at(s, 0, s)) by {
        assert(s.subrange(0, s.len() as int) =~= s);
    }
    lemma_rt_first_member_prefix(s, 0, "filename"@, print_string(m.filename) + tail);
    assert(s[0] == '{');
    assert(skip_ws(s, 0) == 0);
    let q: int = 2 + print_string("filename"@).len() as int;
    lemma_lit_at_concat(s, q, print_string(m.filename), tail);
    lemma_parse_print_string(s, q, m.filename);
    let p1: int = q + print_string(m.filename).len();
    assert(parse_document_member(s, 1, None, None) == Some(
        (Some(m.filename), None::<Seq<EntryModel>>, p1),
    ));
    lemma_rt_document_rest(s, p1, m.filename, m.entries);
    let p4: int = p1 + tail.len();
    assert(p4 == s.len());
    assert(skip_ws(s, p4) == p4);
    assert(ConfigModel { filename: m.filename, entries: m.entries } =~= m);
}

/// Round-trip stability: whatever configuration a stored document
/// denotes, the document printed from that configuration denotes it too —
/// saving what was loaded reproduces the semantic content.
pub proof fn lemma_document_round_trip(text: Seq<char>, m: ConfigModel)
    requires
        parse_document(text) == Some(m),
    ensures
        parse_document(print_document(m)) == Some(m),
{
    lemma_parse_document_sound(text);
    lemma_print_parse_document(m);
}

} // verus!

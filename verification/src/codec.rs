//! The persisted document format: a JSON object holding the document name
//! and the entry list, each entry carrying a kind tag and its fields. The
//! printer emits a compact document; the parser accepts the same shape
//! with any amount of blank space between tokens, the members after the
//! leading kind tag in any order, and the usual string escapes. A document
//! the parser accepts always satisfies the store's well-formedness
//! invariant; parsing anything the printer produced gives back exactly
//! what was printed.

use vstd::prelude::*;

use crate::digits::dec_int_chars;
use crate::digits::digits_end;
use crate::digits::digits_val;
use crate::model::Config;
use crate::model::ConfigModel;
use crate::model::Entry;
use crate::model::EntryModel;
use crate::model::Value;
use crate::model::ValueModel;

verus! {

use vstd::string::StringExecFns;

/// Blank space between tokens.
pub open spec fn is_ws(c: char) -> bool {
    c == ' ' || c == '\n' || c == '\t' || c == '\r'
}

/// The first position at or after `i` holding something other than blank
/// space.
pub open spec fn skip_ws(s: Seq<char>, i: int) -> int
    decreases s.len() - i,
    when 0 <= i <= s.len()
{
    if i < s.len() && is_ws(s[i]) {
        skip_ws(s, i + 1)
    } else {
        i
    }
}

/// How one character is written inside a quoted string.
pub open spec fn esc_char(c: char) -> Seq<char> {
    if c == '"' {
        seq!['\\', '"']
    } else if c == '\\' {
        seq!['\\', '\\']
    } else if c == '\n' {
        seq!['\\', 'n']
    } else if c == '\r' {
        seq!['\\', 'r']
    } else if c == '\t' {
        seq!['\\', 't']
    } else {
        seq![c]
    }
}

/// A string's characters, escaped for quoting.
pub open spec fn esc(s: Seq<char>) -> Seq<char>
    decreases s.len(),
{
    if s.len() == 0 {
        Seq::empty()
    } else {
        esc_char(s[0]) + esc(s.drop_first())
    }
}

/// The character an escape code stands for.
pub open spec fn unescape_char(c: char) -> Option<char> {
    if c == '"' {
        Some('"')
    } else if c == '\\' {
        Some('\\')
    } else if c == '/' {
        Some('/')
    } else if c == 'n' {
        Some('\n')
    } else if c == 'r' {
        Some('\r')
    } else if c == 't' {
        Some('\t')
    } else if c == 'b' {
        Some('\u{0008}')
    } else if c == 'f' {
        Some('\u{000C}')
    } else {
        None
    }
}

/// The text `t` stands at position `i` of `s`.
pub open spec fn lit_at(s: Seq<char>, i: int, t: Seq<char>) -> bool {
    0 <= i && i + t.len() <= s.len() && s.subrange(i, i + t.len()) == t
}

/// A quoted string's remainder, from just after the opening quote: the
/// unescaped contents and the position after the closing quote.
pub open spec fn parse_string_body(s: Seq<char>, i: int) -> Option<(Seq<char>, int)>
    decreases s.len() - i,
    when 0 <= i <= s.len()
{
    if i >= s.len() {
        None
    } else if s[i] == '"' {
        Some((Seq::empty(), i + 1))
    } else if s[i] == '\\' {
        if i + 1 < s.len() {
            match unescape_char(s[i + 1]) {
                Some(c) => match parse_string_body(s, i + 2) {
                    Some((t, j)) => Some((seq![c] + t, j)),
                    None => None,
                },
                None => None,
            }
        } else {
            None
        }
    } else {
        match parse_string_body(s, i + 1) {
            Some((t, j)) => Some((seq![s[i]] + t, j)),
            None => None,
        }
    }
}

/// A quoted string starting at `i`.
pub open spec fn parse_string(s: Seq<char>, i: int) -> Option<(Seq<char>, int)> {
    if 0 <= i < s.len() && s[i] == '"' {
        parse_string_body(s, i + 1)
    } else {
        None
    }
}

/// A decimal number starting at `i`: an optional minus sign, then one or
/// more digits, taken greedily.
pub open spec fn parse_number(s: Seq<char>, i: int) -> Option<(int, int)> {
    if 0 <= i < s.len() && s[i] == '-' {
        let e = digits_end(s, i + 1);
        if e == i + 1 {
            None
        } else {
            Some((-digits_val(s.subrange(i + 1, e)), e))
        }
    } else if 0 <= i <= s.len() {
        let e = digits_end(s, i);
        if e == i {
            None
        } else {
            Some((digits_val(s.subrange(i, e)), e))
        }
    } else {
        None
    }
}

/// The string array's remainder: either the closing bracket, or a comma
/// and one more quoted string, repeated.
pub open spec fn parse_strings_rest(s: Seq<char>, i: int, acc: Seq<Seq<char>>) -> Option<
    (Seq<Seq<char>>, int),
>
    decreases s.len() - i,
    when 0 <= i <= s.len()
{
    let j = skip_ws(s, i);
    if j < s.len() && s[j] == ']' {
        Some((acc, j + 1))
    } else if j < s.len() && s[j] == ',' {
        let k = skip_ws(s, j + 1);
        match parse_string(s, k) {
            Some((v, k2)) => if i < k2 <= s.len() {
                parse_strings_rest(s, k2, acc.push(v))
            } else {
                None
            },
            None => None,
        }
    } else {
        None
    }
}

/// An array of quoted strings starting at `i`.
pub open spec fn parse_string_array(s: Seq<char>, i: int) -> Option<(Seq<Seq<char>>, int)> {
    if 0 <= i < s.len() && s[i] == '[' {
        let j = skip_ws(s, i + 1);
        if j < s.len() && s[j] == ']' {
            Some((Seq::empty(), j + 1))
        } else {
            match parse_string(s, j) {
                Some((v, k)) => if i < k <= s.len() {
                    parse_strings_rest(s, k, seq![v])
                } else {
                    None
                },
                None => None,
            }
        }
    } else {
        None
    }
}

/// `true` or `false` starting at `i`.
pub open spec fn parse_bool(s: Seq<char>, i: int) -> Option<(bool, int)> {
    if lit_at(s, i, "true"@) {
        Some((true, i + 4))
    } else if lit_at(s, i, "false"@) {
        Some((false, i + 5))
    } else {
        None
    }
}

/// The members a text value still owes after its kind tag: `value` and an
/// optional `maximum_size` (a `null` counts as absent), in either order,
/// each at most once, then the closing brace.
pub open spec fn parse_text_members(
    s: Seq<char>,
    i: int,
    value: Option<Seq<char>>,
    max: Option<Option<int>>,
) -> Option<(ValueModel, int)>
    decreases s.len() - i,
    when 0 <= i <= s.len()
{
    let j = skip_ws(s, i);
    if j < s.len() && s[j] == '}' {
        match value {
            Some(v) => Some(
                (
                    ValueModel::Text {
                        value: v,
                        maximum_size: match max {
                            Some(m) => m,
                            None => None,
                        },
                    },
                    j + 1,
                ),
            ),
            None => None,
        }
    } else if j < s.len() && s[j] == ',' {
        let k = skip_ws(s, j + 1);
        match parse_string(s, k) {
            Some((key, k2)) => {
                let k3 = skip_ws(s, if 0 <= k2 <= s.len() {
                    k2
                } else {
                    s.len() as int
                });
                if k3 < s.len() && s[k3] == ':' {
                    let k4 = skip_ws(s, k3 + 1);
                    if key == "value"@ {
                        if value is Some {
                            None
                        } else {
                            match parse_string(s, k4) {
                                Some((v, k5)) => if i < k5 <= s.len() {
                                    parse_text_members(s, k5, Some(v), max)
                                } else {
                                    None
                                },
                                None => None,
                            }
                        }
                    } else if key == "maximum_size"@ {
                        if max is Some {
                            None
                        } else if lit_at(s, k4, "null"@) {
                            if i < k4 + 4 && k4 + 4 <= s.len() {
                                parse_text_members(s, k4 + 4, value, Some(None))
                            } else {
                                None
                            }
                        } else {
                            match parse_number(s, k4) {
                                Some((v, k5)) => if 0 <= v <= usize::MAX && i < k5 <= s.len() {
                                    parse_text_members(s, k5, value, Some(Some(v)))
                                } else {
                                    None
                                },
                                None => None,
                            }
                        }
                    } else {
                        None
                    }
                } else {
                    None
                }
            },
            None => None,
        }
    } else {
        None
    }
}

/// The members a choice-like value still owes after its kind tag:
/// `options` and `selected`, in either order, each at most once, then the
/// closing brace; the selection must lie within the options (or be zero
/// when there are none).
pub open spec fn parse_choice_members(
    s: Seq<char>,
    i: int,
    color: bool,
    options: Option<Seq<Seq<char>>>,
    selected: Option<int>,
) -> Option<(ValueModel, int)>
    decreases s.len() - i,
    when 0 <= i <= s.len()
{
    let j = skip_ws(s, i);
    if j < s.len() && s[j] == '}' {
        match (options, selected) {
            (Some(opts), Some(sel)) => {
                if (opts.len() == 0 && sel == 0) || (0 <= sel < opts.len()) {
                    Some(
                        (
                            if color {
                                ValueModel::Color { options: opts, selected: sel }
                            } else {
                                ValueModel::Choice { options: opts, selected: sel }
                            },
                            j + 1,
                        ),
                    )
                } else {
                    None
                }
            },
            _ => None,
        }
    } else if j < s.len() && s[j] == ',' {
        let k = skip_ws(s, j + 1);
        match parse_string(s, k) {
            Some((key, k2)) => {
                let k3 = skip_ws(s, if 0 <= k2 <= s.len() {
                    k2
                } else {
                    s.len() as int
                });
                if k3 < s.len() && s[k3] == ':' {
                    let k4 = skip_ws(s, k3 + 1);
                    if key == "options"@ {
                        if options is Some {
                            None
                        } else {
                            match parse_string_array(s, k4) {
                                Some((opts, k5)) => if i < k5 <= s.len() {
                                    parse_choice_members(s, k5, color, Some(opts), selected)
                                } else {
                                    None
                                },
                                None => None,
                            }
                        }
                    } else if key == "selected"@ {
                        if selected is Some {
                            None
                        } else {
                            match parse_number(s, k4) {
                                Some((v, k5)) => if 0 <= v <= usize::MAX && i < k5 <= s.len() {
                                    parse_choice_members(s, k5, color, options, Some(v))
                                } else {
                                    None
                                },
                                None => None,
                            }
                        }
                    } else {
                        None
                    }
                } else {
                    None
                }
            },
            None => None,
        }
    } else {
        None
    }
}

/// The single `value` member an integer value still owes: a number in the
/// signed 64-bit range.
pub open spec fn parse_int_members(s: Seq<char>, i: int, value: Option<int>) -> Option<
    (ValueModel, int),
>
    decreases s.len() - i,
    when 0 <= i <= s.len()
{
    let j = skip_ws(s, i);
    if j < s.len() && s[j] == '}' {
        match value {
            Some(v) => Some((ValueModel::Integer { value: v }, j + 1)),
            None => None,
        }
    } else if j < s.len() && s[j] == ',' {
        let k = skip_ws(s, j + 1);
        match parse_string(s, k) {
            Some((key, k2)) => {
                let k3 = skip_ws(s, if 0 <= k2 <= s.len() {
                    k2
                } else {
                    s.len() as int
                });
                if k3 < s.len() && s[k3] == ':' {
                    let k4 = skip_ws(s, k3 + 1);
                    if key == "value"@ && value is None {
                        match parse_number(s, k4) {
                            Some((v, k5)) => if i64::MIN <= v <= i64::MAX && i < k5 <= s.len() {
                                parse_int_members(s, k5, Some(v))
                            } else {
                                None
                            },
                            None => None,
                        }
                    } else {
                        None
                    }
                } else {
                    None
                }
            },
            None => None,
        }
    } else {
        None
    }
}

/// The single `value` member a boolean value still owes.
pub open spec fn parse_bool_members(s: Seq<char>, i: int, value: Option<bool>) -> Option<
    (ValueModel, int),
>
    decreases s.len() - i,
    when 0 <= i <= s.len()
{
    let j = skip_ws(s, i);
    if j < s.len() && s[j] == '}' {
        match value {
            Some(v) => Some((ValueModel::Boolean { value: v }, j + 1)),
            None => None,
        }
    } else if j < s.len() && s[j] == ',' {
        let k = skip_ws(s, j + 1);
        match parse_string(s, k) {
            Some((key, k2)) => {
                let k3 = skip_ws(s, if 0 <= k2 <= s.len() {
                    k2
                } else {
                    s.len() as int
                });
                if k3 < s.len() && s[k3] == ':' {
                    let k4 = skip_ws(s, k3 + 1);
                    if key == "value"@ && value is None {
                        match parse_bool(s, k4) {
                            Some((v, k5)) => if i < k5 <= s.len() {
                                parse_bool_members(s, k5, Some(v))
                            } else {
                                None
                            },
                            None => None,
                        }
                    } else {
                        None
                    }
                } else {
                    None
                }
            },
            None => None,
        }
    } else {
        None
    }
}

/// A value object: an opening brace, the `kind` tag as its first member,
/// then the members that kind owes.
pub open spec fn parse_value(s: Seq<char>, i: int) -> Option<(ValueModel, int)> {
    if 0 <= i < s.len() && s[i] == '{' {
        let j = skip_ws(s, i + 1);
        match parse_string(s, j) {
            Some((k, j2)) => {
                if k == "kind"@ {
                    let j3 = skip_ws(s, if 0 <= j2 <= s.len() {
                        j2
                    } else {
                        s.len() as int
                    });
                    if j3 < s.len() && s[j3] == ':' {
                        let j4 = skip_ws(s, j3 + 1);
                        match parse_string(s, j4) {
                            Some((kind, j5)) => {
                                if 0 <= j5 <= s.len() {
                                    if kind == "text"@ {
                                        parse_text_members(s, j5, None, None)
                                    } else if kind == "choice"@ {
                                        parse_choice_members(s, j5, false, None, None)
                                    } else if kind == "color"@ {
                                        parse_choice_members(s, j5, true, None, None)
                                    } else if kind == "category"@ {
                                        let j6 = skip_ws(s, j5);
                                        if j6 < s.len() && s[j6] == '}' {
                                            Some((ValueModel::Category, j6 + 1))
                                        } else {
                                            None
                                        }
                                    } else if kind == "integer"@ {
                                        parse_int_members(s, j5, None)
                                    } else if kind == "boolean"@ {
                                        parse_bool_members(s, j5, None)
                                    } else {
                                        None
                                    }
                                } else {
                                    None
                                }
                            },
                            None => None,
                        }
                    } else {
                        None
                    }
                } else {
                    None
                }
            },
            None => None,
        }
    } else {
        None
    }
}

/// The members an entry still owes after its first member: `key` and
/// `value`, in either order, each exactly once, then the closing brace.
pub open spec fn parse_entry_rest(
    s: Seq<char>,
    i: int,
    key: Option<Seq<char>>,
    value: Option<ValueModel>,
) -> Option<(EntryModel, int)>
    decreases s.len() - i,
    when 0 <= i <= s.len()
{
    let j = skip_ws(s, i);
    if j < s.len() && s[j] == '}' {
        match (key, value) {
            (Some(k), Some(v)) => Some((EntryModel { key: k, value: v }, j + 1)),
            _ => None,
        }
    } else if j < s.len() && s[j] == ',' {
        let k = skip_ws(s, j + 1);
        match parse_entry_member(s, k, key, value) {
            Some((key2, value2, k2)) => if i < k2 <= s.len() {
                parse_entry_rest(s, k2, key2, value2)
            } else {
                None
            },
            None => None,
        }
    } else {
        None
    }
}

/// One member of an entry object: `key` with a quoted string, or `value`
/// with a value object, whichever is still missing.
pub open spec fn parse_entry_member(
    s: Seq<char>,
    i: int,
    key: Option<Seq<char>>,
    value: Option<ValueModel>,
) -> Option<(Option<Seq<char>>, Option<ValueModel>, int)> {
    match parse_string(s, i) {
        Some((name, k2)) => {
            let k3 = skip_ws(s, if 0 <= k2 <= s.len() {
                k2
            } else {
                s.len() as int
            });
            if k3 < s.len() && s[k3] == ':' {
                let k4 = skip_ws(s, k3 + 1);
                if name == "key"@ && key is None {
                    match parse_string(s, k4) {
                        Some((k, k5)) => Some((Some(k), value, k5)),
                        None => None,
                    }
                } else if name == "value"@ && value is None {
                    match parse_value(s, k4) {
                        Some((v, k5)) => Some((key, Some(v), k5)),
                        None => None,
                    }
                } else {
                    None
                }
            } else {
                None
            }
        },
        None => None,
    }
}

/// An entry object starting at `i`.
pub open spec fn parse_entry(s: Seq<char>, i: int) -> Option<(EntryModel, int)> {
    if 0 <= i < s.len() && s[i] == '{' {
        let j = skip_ws(s, i + 1);
        match parse_entry_member(s, j, None, None) {
            Some((key, value, k2)) => if i < k2 <= s.len() {
                parse_entry_rest(s, k2, key, value)
            } else {
                None
            },
            None => None,
        }
    } else {
        None
    }
}

/// The entry array's remainder: the closing bracket, or a comma and one
/// more entry, repeated.
pub open spec fn parse_entries_rest(s: Seq<char>, i: int, acc: Seq<EntryModel>) -> Option<
    (Seq<EntryModel>, int),
>
    decreases s.len() - i,
    when 0 <= i <= s.len()
{
    let j = skip_ws(s, i);
    if j < s.len() && s[j] == ']' {
        Some((acc, j + 1))
    } else if j < s.len() && s[j] == ',' {
        let k = skip_ws(s, j + 1);
        match parse_entry(s, k) {
            Some((e, k2)) => if i < k2 <= s.len() {
                parse_entries_rest(s, k2, acc.push(e))
            } else {
                None
            },
            None => None,
        }
    } else {
        None
    }
}

/// An array of entry objects starting at `i`.
pub open spec fn parse_entries(s: Seq<char>, i: int) -> Option<(Seq<EntryModel>, int)> {
    if 0 <= i < s.len() && s[i] == '[' {
        let j = skip_ws(s, i + 1);
        if j < s.len() && s[j] == ']' {
            Some((Seq::empty(), j + 1))
        } else {
            match parse_entry(s, j) {
                Some((e, k)) => if i < k <= s.len() {
                    parse_entries_rest(s, k, seq![e])
                } else {
                    None
                },
                None => None,
            }
        }
    } else {
        None
    }
}

/// One member of the top object: `filename` with a quoted string, or
/// `entries` with the entry array, whichever is still missing.
pub open spec fn parse_document_member(
    s: Seq<char>,
    i: int,
    filename: Option<Seq<char>>,
    entries: Option<Seq<EntryModel>>,
) -> Option<(Option<Seq<char>>, Option<Seq<EntryModel>>, int)> {
    match parse_string(s, i) {
        Some((name, k2)) => {
            let k3 = skip_ws(s, if 0 <= k2 <= s.len() {
                k2
            } else {
                s.len() as int
            });
            if k3 < s.len() && s[k3] == ':' {
                let k4 = skip_ws(s, k3 + 1);
                if name == "filename"@ && filename is None {
                    match parse_string(s, k4) {
                        Some((f, k5)) => Some((Some(f), entries, k5)),
                        None => None,
                    }
                } else if name == "entries"@ && entries is None {
                    match parse_entries(s, k4) {
                        Some((es, k5)) => Some((filename, Some(es), k5)),
                        None => None,
                    }
                } else {
                    None
                }
            } else {
                None
            }
        },
        None => None,
    }
}

/// The top object's remainder after its first member.
pub open spec fn parse_document_rest(
    s: Seq<char>,
    i: int,
    filename: Option<Seq<char>>,
    entries: Option<Seq<EntryModel>>,
) -> Option<(ConfigModel, int)>
    decreases s.len() - i,
    when 0 <= i <= s.len()
{
    let j = skip_ws(s, i);
    if j < s.len() && s[j] == '}' {
        match (filename, entries) {
            (Some(f), Some(es)) => Some((ConfigModel { filename: f, entries: es }, j + 1)),
            _ => None,
        }
    } else if j < s.len() && s[j] == ',' {
        let k = skip_ws(s, j + 1);
        match parse_document_member(s, k, filename, entries) {
            Some((f2, e2, k2)) => if i < k2 <= s.len() {
                parse_document_rest(s, k2, f2, e2)
            } else {
                None
            },
            None => None,
        }
    } else {
        None
    }
}

/// A whole document: the top object with a `filename` string and the
/// `entries` array, and nothing but blank space after it.
pub open spec fn parse_document(s: Seq<char>) -> Option<ConfigModel> {
    let i = skip_ws(s, 0);
    if i < s.len() && s[i] == '{' {
        let j = skip_ws(s, i + 1);
        match parse_document_member(s, j, None, None) {
            Some((f, es, k2)) => if i < k2 <= s.len() {
                match parse_document_rest(s, k2, f, es) {
                    Some((m, k3)) => if skip_ws(s, k3) == s.len() {
                        Some(m)
                    } else {
                        None
                    },
                    None => None,
                }
            } else {
                None
            },
            None => None,
        }
    } else {
        None
    }
}

/// A quoted, escaped string as the printer writes it.
pub open spec fn print_string(v: Seq<char>) -> Seq<char> {
    seq!['"'] + esc(v) + seq!['"']
}

/// The tail of a printed string array: a comma and a string for each
/// remaining option, then the closing bracket.
pub open spec fn print_strings_tail(opts: Seq<Seq<char>>) -> Seq<char>
    decreases opts.len(),
{
    if opts.len() == 0 {
        seq![']']
    } else {
        seq![','] + print_string(opts[0]) + print_strings_tail(opts.drop_first())
    }
}

/// A printed string array.
pub open spec fn print_string_array(opts: Seq<Seq<char>>) -> Seq<char> {
    if opts.len() == 0 {
        seq!['[', ']']
    } else {
        seq!['['] + print_string(opts[0]) + print_strings_tail(opts.drop_first())
    }
}

/// A printed value object: the kind tag first, then the kind's fields, in
/// a fixed order and without blank space.
pub open spec fn print_value(v: ValueModel) -> Seq<char> {
    match v {
        ValueModel::Text { value, maximum_size } => seq!['{'] + print_string("kind"@) + seq![':']
            + print_string("text"@) + seq![','] + print_string("value"@) + seq![':']
            + print_string(value) + seq![','] + print_string("maximum_size"@) + seq![':'] + (
        match maximum_size {
            Some(m) => dec_int_chars(m),
            None => "null"@,
        }) + seq!['}'],
        ValueModel::Choice { options, selected } => seq!['{'] + print_string("kind"@) + seq![':']
            + print_string("choice"@) + seq![','] + print_string("options"@) + seq![':']
            + print_string_array(options) + seq![','] + print_string("selected"@) + seq![':']
            + dec_int_chars(selected) + seq!['}'],
        ValueModel::Category => seq!['{'] + print_string("kind"@) + seq![':'] + print_string(
            "category"@,
        ) + seq!['}'],
        ValueModel::Color { options, selected } => seq!['{'] + print_string("kind"@) + seq![':']
            + print_string("color"@) + seq![','] + print_string("options"@) + seq![':']
            + print_string_array(options) + seq![','] + print_string("selected"@) + seq![':']
            + dec_int_chars(selected) + seq!['}'],
        ValueModel::Integer { value } => seq!['{'] + print_string("kind"@) + seq![':']
            + print_string("integer"@) + seq![','] + print_string("value"@) + seq![':']
            + dec_int_chars(value) + seq!['}'],
        ValueModel::Boolean { value } => seq!['{'] + print_string("kind"@) + seq![':']
            + print_string("boolean"@) + seq![','] + print_string("value"@) + seq![':'] + (if value {
            "true"@
        } else {
            "false"@
        }) + seq!['}'],
    }
}

/// A printed entry object: the key, then the value.
pub open spec fn print_entry(e: EntryModel) -> Seq<char> {
    seq!['{'] + print_string("key"@) + seq![':'] + print_string(e.key) + seq![','] + print_string(
        "value"@,
    ) + seq![':'] + print_value(e.value) + seq!['}']
}

/// The tail of the printed entry array.
pub open spec fn print_entries_tail(es: Seq<EntryModel>) -> Seq<char>
    decreases es.len(),
{
    if es.len() == 0 {
        seq![']']
    } else {
        seq![','] + print_entry(es[0]) + print_entries_tail(es.drop_first())
    }
}

/// A printed entry array.
pub open spec fn print_entries(es: Seq<EntryModel>) -> Seq<char> {
    if es.len() == 0 {
        seq!['[', ']']
    } else {
        seq!['['] + print_entry(es[0]) + print_entries_tail(es.drop_first())
    }
}

/// A whole printed document.
pub open spec fn print_document(m: ConfigModel) -> Seq<char> {
    seq!['{'] + print_string("filename"@) + seq![':'] + print_string(m.filename) + seq![',']
        + print_string("entries"@) + seq![':'] + print_entries(m.entries) + seq!['}']
}


/// Escaping one character more extends the escaped text by that
/// character's escape.
pub proof fn lemma_esc_push(v: Seq<char>, c: char)
    ensures
        esc(v.push(c)) == esc(v) + esc_char(c),
    decreases v.len(),
{
    if v.len() == 0 {
        assert(v.push(c)[0] == c);
        assert(v.push(c).drop_first() =~= Seq::<char>::empty());
        assert(esc(Seq::<char>::empty()) == Seq::<char>::empty());
        assert(esc(v.push(c)) == esc_char(c) + esc(Seq::<char>::empty()));
        assert(esc(v) == Seq::<char>::empty());
        assert(esc(v.push(c)) =~= esc(v) + esc_char(c));
    } else {
        assert(v.push(c).drop_first() =~= v.drop_first().push(c));
        lemma_esc_push(v.drop_first(), c);
        assert(esc(v.push(c)) =~= esc(v) + esc_char(c));
    }
}

/// Appends one character's escape.
fn push_esc_char(out: &mut String, c: char)
    ensures
        final(out)@ == old(out)@ + esc_char(c),
{
    if c == '"' {
        crate::strutil::push_char(out, '\\');
        crate::strutil::push_char(out, '"');
    } else if c == '\\' {
        crate::strutil::push_char(out, '\\');
        crate::strutil::push_char(out, '\\');
    } else if c == '\n' {
        crate::strutil::push_char(out, '\\');
        crate::strutil::push_char(out, 'n');
    } else if c == '\r' {
        crate::strutil::push_char(out, '\\');
        crate::strutil::push_char(out, 'r');
    } else if c == '\t' {
        crate::strutil::push_char(out, '\\');
        crate::strutil::push_char(out, 't');
    } else {
        crate::strutil::push_char(out, c);
    }
    proof {
        assert(final(out)@ =~= old(out)@ + esc_char(c));
    }
}

/// Appends a quoted, escaped string.
fn append_print_string(out: &mut String, t: &str)
    ensures
        final(out)@ == old(out)@ + print_string(t@),
{
    crate::strutil::push_char(out, '"');
    let chars = crate::strutil::str_to_chars(t);
    let n = chars.len();
    let mut i: usize = 0;
    while i < n
        invariant
            n == chars@.len(),
            chars@ == t@,
            i <= n,
            out@ == old(out)@ + seq!['"'] + esc(t@.take(i as int)),
        decreases n - i,
    {
        let ghost pre = t@.take(i as int);
        push_esc_char(out, chars[i]);
        proof {
            assert(pre.push(t@[i as int]) =~= t@.take(i as int + 1));
            lemma_esc_push(pre, t@[i as int]);
            assert(out@ =~= old(out)@ + seq!['"'] + esc(t@.take(i as int + 1)));
        }
        i += 1;
    }
    crate::strutil::push_char(out, '"');
    proof {
        assert(t@.take(t@.len() as int) =~= t@);
        assert(final(out)@ =~= old(out)@ + print_string(t@));
    }
}

/// Appends a non-negative number in decimal.
fn append_usize(out: &mut String, v: usize)
    ensures
        final(out)@ == old(out)@ + dec_int_chars(v as int),
{
    crate::digits::push_dec_u64(out, v as u64);
}

/// Appends a signed number in decimal.
fn append_i64(out: &mut String, v: i64)
    ensures
        final(out)@ == old(out)@ + dec_int_chars(v as int),
{
    let t = crate::digits::i64_to_string(v);
    out.append(t.as_str());
}

/// Appends a printed string array.
fn append_print_string_array(out: &mut String, opts: &Vec<String>)
    ensures
        final(out)@ == old(out)@ + print_string_array(opts.deep_view()),
{
    let ghost view = opts.deep_view();
    let n = opts.len();
    proof {
        assert(view.len() == n);
    }
    if n == 0 {
        crate::strutil::push_char(out, '[');
        crate::strutil::push_char(out, ']');
        proof {
            assert(final(out)@ =~= old(out)@ + print_string_array(view));
        }
        return ;
    }
    crate::strutil::push_char(out, '[');
    append_print_string(out, opts[0].as_str());
    proof {
        assert(view[0] == opts@[0]@);
        assert(out@ + print_strings_tail(view.skip(1)) =~= old(out)@ + print_string_array(view));
    }
    let mut i: usize = 1;
    while i < n
        invariant
            n == opts@.len(),
            view == opts.deep_view(),
            view.len() == n,
            1 <= i <= n,
            out@ + print_strings_tail(view.skip(i as int)) == old(out)@ + print_string_array(view),
        decreases n - i,
    {
        let ghost before = out@;
        crate::strutil::push_char(out, ',');
        append_print_string(out, opts[i].as_str());
        proof {
            assert(view.skip(i as int)[0] == view[i as int]);
            assert(view[i as int] == opts@[i as int]@);
            assert(view.skip(i as int).drop_first() =~= view.skip(i as int + 1));
            assert(print_strings_tail(view.skip(i as int)) == seq![','] + print_string(
                view[i as int],
            ) + print_strings_tail(view.skip(i as int + 1)));
            assert(out@ + print_strings_tail(view.skip(i as int + 1)) =~= before
                + print_strings_tail(view.skip(i as int)));
        }
        i += 1;
    }
    crate::strutil::push_char(out, ']');
    proof {
        assert(view.skip(n as int).len() == 0);
        assert(print_strings_tail(view.skip(n as int)) == seq![']']);
        assert(final(out)@ =~= old(out)@ + print_string_array(view));
    }
}

/// Appends a printed value object.
#[verifier::rlimit(100)]
fn append_print_value(out: &mut String, v: &Value)
    ensures
        final(out)@ == old(out)@ + print_value(v@),
{
    crate::strutil::push_char(out, '{');
    append_print_string(out, "kind");
    crate::strutil::push_char(out, ':');
    match v {
        Value::Text { value, maximum_size } => {
            append_print_string(out, "text");
            crate::strutil::push_char(out, ',');
            append_print_string(out, "value");
            crate::strutil::push_char(out, ':');
            append_print_string(out, value.as_str());
            crate::strutil::push_char(out, ',');
            append_print_string(out, "maximum_size");
            crate::strutil::push_char(out, ':');
            match maximum_size {
                Some(m) => append_usize(out, *m),
                None => out.append("null"),
            }
            crate::strutil::push_char(out, '}');
            proof {
                assert(final(out)@ =~= old(out)@ + print_value(v@));
            }
        },
        Value::Choice { options, selected } => {
            append_print_string(out, "choice");
            crate::strutil::push_char(out, ',');
            append_print_string(out, "options");
            crate::strutil::push_char(out, ':');
            append_print_string_array(out, options);
            crate::strutil::push_char(out, ',');
            append_print_string(out, "selected");
            crate::strutil::push_char(out, ':');
            append_usize(out, *selected);
            crate::strutil::push_char(out, '}');
            proof {
                assert(final(out)@ =~= old(out)@ + print_value(v@));
            }
        },
        Value::Category => {
            append_print_string(out, "category");
            crate::strutil::push_char(out, '}');
            proof {
                assert(final(out)@ =~= old(out)@ + print_value(v@));
            }
        },
        Value::Color { options, selected } => {
            append_print_string(out, "color");
            crate::strutil::push_char(out, ',');
            append_print_string(out, "options");
            crate::strutil::push_char(out, ':');
            append_print_string_array(out, options);
            crate::strutil::push_char(out, ',');
            append_print_string(out, "selected");
            crate::strutil::push_char(out, ':');
            append_usize(out, *selected);
            crate::strutil::push_char(out, '}');
            proof {
                assert(final(out)@ =~= old(out)@ + print_value(v@));
            }
        },
        Value::Integer { value } => {
            append_print_string(out, "integer");
            crate::strutil::push_char(out, ',');
            append_print_string(out, "value");
            crate::strutil::push_char(out, ':');
            append_i64(out, *value);
            crate::strutil::push_char(out, '}');
            proof {
                assert(final(out)@ =~= old(out)@ + print_value(v@));
            }
        },
        Value::Boolean { value } => {
            append_print_string(out, "boolean");
            crate::strutil::push_char(out, ',');
            append_print_string(out, "value");
            crate::strutil::push_char(out, ':');
            if *value {
                out.append("true");
            } else {
                out.append("false");
            }
            crate::strutil::push_char(out, '}');
            proof {
                assert(final(out)@ =~= old(out)@ + print_value(v@));
            }
        },
    }
}

/// Appends a printed entry object.
fn append_print_entry(out: &mut String, e: &Entry)
    ensures
        final(out)@ == old(out)@ + print_entry(e@),
{
    crate::strutil::push_char(out, '{');
    append_print_string(out, "key");
    crate::strutil::push_char(out, ':');
    append_print_string(out, e.key.as_str());
    crate::strutil::push_char(out, ',');
    append_print_string(out, "value");
    crate::strutil::push_char(out, ':');
    append_print_value(out, &e.value);
    crate::strutil::push_char(out, '}');
    proof {
        assert(final(out)@ =~= old(out)@ + print_entry(e@));
    }
}

impl Config {
    /// The whole configuration, printed as the persisted document.
    #[verifier::rlimit(100)]
    pub fn to_document(&self) -> (out: String)
        ensures
            out@ == print_document(self@),
    {
        let ghost view = self@.entries;
        let mut out = String::new();
        crate::strutil::push_char(&mut out, '{');
        append_print_string(&mut out, "filename");
        crate::strutil::push_char(&mut out, ':');
        append_print_string(&mut out, self.filename.as_str());
        crate::strutil::push_char(&mut out, ',');
        append_print_string(&mut out, "entries");
        crate::strutil::push_char(&mut out, ':');
        proof {
            assert(out@ =~= seq!['{'] + print_string("filename"@) + seq![':'] + print_string(
                self.filename@,
            ) + seq![','] + print_string("entries"@) + seq![':']);
        }
        let n = self.entries.len();
        if n == 0 {
            crate::strutil::push_char(&mut out, '[');
            crate::strutil::push_char(&mut out, ']');
            proof {
                assert(view.len() == 0);
                assert(print_entries(view) == seq!['[', ']']);
                assert(out@ + seq!['}'] =~= print_document(self@));
            }
        } else {
            let ghost mid = out@;
            crate::strutil::push_char(&mut out, '[');
            append_print_entry(&mut out, &self.entries[0]);
            proof {
                assert(view[0] == self.entries@[0]@);
                assert(out@ + print_entries_tail(view.skip(1)) =~= mid + print_entries(view));
            }
            let mut i: usize = 1;
            while i < n
                invariant
                    n == self.entries@.len(),
                    view == self@.entries,
                    view.len() == n,
                    1 <= i <= n,
                    out@ + print_entries_tail(view.skip(i as int)) == mid + print_entries(view),
                decreases n - i,
            {
                let ghost before = out@;
                crate::strutil::push_char(&mut out, ',');
                append_print_entry(&mut out, &self.entries[i]);
                proof {
                    assert(view.skip(i as int)[0] == view[i as int]);
                    assert(view[i as int] == self.entries@[i as int]@);
                    assert(view.skip(i as int).drop_first() =~= view.skip(i as int + 1));
                    assert(print_entries_tail(view.skip(i as int)) == seq![','] + print_entry(
                        view[i as int],
                    ) + print_entries_tail(view.skip(i as int + 1)));
                    assert(out@ + print_entries_tail(view.skip(i as int + 1)) =~= before
                        + print_entries_tail(view.skip(i as int)));
                }
                i += 1;
            }
            crate::strutil::push_char(&mut out, ']');
            proof {
                assert(view.skip(n as int).len() == 0);
                assert(print_entries_tail(view.skip(n as int)) == seq![']']);
                assert(out@ + seq!['}'] =~= print_document(self@));
            }
        }
        crate::strutil::push_char(&mut out, '}');
        out
    }
}


/// The stored options, seen as sequences.
pub open spec fn opt_str_view(o: Option<String>) -> Option<Seq<char>> {
    match o {
        Some(t) => Some(t@),
        None => None,
    }
}

pub open spec fn opt_max_view(o: Option<Option<usize>>) -> Option<Option<int>> {
    match o {
        Some(Some(m)) => Some(Some(m as int)),
        Some(None) => Some(None),
        None => None,
    }
}

pub open spec fn opt_opts_view(o: Option<Vec<String>>) -> Option<Seq<Seq<char>>> {
    match o {
        Some(t) => Some(t.deep_view()),
        None => None,
    }
}

pub open spec fn opt_sel_view(o: Option<usize>) -> Option<int> {
    match o {
        Some(t) => Some(t as int),
        None => None,
    }
}

pub open spec fn opt_int_view(o: Option<i64>) -> Option<int> {
    match o {
        Some(t) => Some(t as int),
        None => None,
    }
}

pub open spec fn opt_value_view(o: Option<Value>) -> Option<ValueModel> {
    match o {
        Some(t) => Some(t@),
        None => None,
    }
}

pub open spec fn opt_entries_view(o: Option<Vec<Entry>>) -> Option<Seq<EntryModel>> {
    match o {
        Some(t) => Some(t.deep_view()),
        None => None,
    }
}

fn is_ws_exec(c: char) -> (r: bool)
    ensures
        r == is_ws(c),
{
    c == ' ' || c == '\n' || c == '\t' || c == '\r'
}

/// The first position at or after `i` holding something other than blank
/// space.
fn skip_ws_exec(v: &Vec<char>, i: usize) -> (j: usize)
    requires
        i <= v@.len(),
    ensures
        j as int == skip_ws(v@, i as int),
        i <= j <= v@.len(),
{
    let mut k = i;
    while k < v.len() && is_ws_exec(v[k])
        invariant
            i <= k <= v@.len(),
            skip_ws(v@, i as int) == skip_ws(v@, k as int),
        decreases v@.len() - k,
    {
        k += 1;
    }
    k
}

fn unescape_char_exec(c: char) -> (r: Option<char>)
    ensures
        r == unescape_char(c),
{
    if c == '"' {
        Some('"')
    } else if c == '\\' {
        Some('\\')
    } else if c == '/' {
        Some('/')
    } else if c == 'n' {
        Some('\n')
    } else if c == 'r' {
        Some('\r')
    } else if c == 't' {
        Some('\t')
    } else if c == 'b' {
        Some('\u{0008}')
    } else if c == 'f' {
        Some('\u{000C}')
    } else {
        None
    }
}

/// A quoted string's remainder, from just after the opening quote.
fn parse_string_body_exec(v: &Vec<char>, i: usize) -> (r: Option<(String, usize)>)
    requires
        i <= v@.len(),
    ensures
        match r {
            Some((t, j)) => parse_string_body(v@, i as int) == Some((t@, j as int)) && i < j
                <= v@.len(),
            None => parse_string_body(v@, i as int) is None,
        },
    decreases v@.len() - i,
{
    if i >= v.len() {
        return None;
    }
    let c = v[i];
    if c == '"' {
        return Some((String::new(), i + 1));
    }
    if c == '\\' {
        if i + 1 < v.len() {
            match unescape_char_exec(v[i + 1]) {
                Some(u) => match parse_string_body_exec(v, i + 2) {
                    Some((t, j)) => {
                        let mut s = String::new();
                        crate::strutil::push_char(&mut s, u);
                        s.append(t.as_str());
                        proof {
                            assert(s@ =~= seq![u] + t@);
                        }
                        Some((s, j))
                    },
                    None => None,
                },
                None => None,
            }
        } else {
            None
        }
    } else {
        match parse_string_body_exec(v, i + 1) {
            Some((t, j)) => {
                let mut s = String::new();
                crate::strutil::push_char(&mut s, c);
                s.append(t.as_str());
                proof {
                    assert(s@ =~= seq![c] + t@);
                }
                Some((s, j))
            },
            None => None,
        }
    }
}

/// A quoted string starting at `i`.
fn parse_string_exec(v: &Vec<char>, i: usize) -> (r: Option<(String, usize)>)
    requires
        i <= v@.len(),
    ensures
        match r {
            Some((t, j)) => parse_string(v@, i as int) == Some((t@, j as int)) && i < j
                <= v@.len(),
            None => parse_string(v@, i as int) is None,
        },
{
    if i < v.len() && v[i] == '"' {
        parse_string_body_exec(v, i + 1)
    } else {
        None
    }
}

/// A decimal number starting at `i`: its sign, its magnitude when that
/// fits a `u64`, and the position after its digits.
fn parse_number_exec(v: &Vec<char>, i: usize) -> (r: Option<(bool, Option<u64>, usize)>)
    requires
        i <= v@.len(),
    ensures
        match parse_number(v@, i as int) {
            Some((val, j)) => r matches Some((neg, mago, jj)) && jj as int == j && i < jj
                <= v@.len() && (match mago {
                Some(m) => (if neg {
                    -(m as int)
                } else {
                    m as int
                }) == val,
                None => val > u64::MAX || val < -(u64::MAX as int),
            }),
            None => r is None,
        },
{
    if i < v.len() && v[i] == '-' {
        let e = crate::digits::scan_digits(v, i + 1);
        proof {
            crate::digits::lemma_digits_end(v@, i as int + 1);
        }
        if e == i + 1 {
            None
        } else {
            let m = crate::digits::digits_to_u64(v, i + 1, e);
            Some((true, m, e))
        }
    } else {
        let e = crate::digits::scan_digits(v, i);
        proof {
            crate::digits::lemma_digits_end(v@, i as int);
        }
        if e == i {
            None
        } else {
            let m = crate::digits::digits_to_u64(v, i, e);
            Some((false, m, e))
        }
    }
}

/// Whether `lit` stands at position `i`.
fn match_lit(v: &Vec<char>, i: usize, lit: &str) -> (r: bool)
    requires
        i <= v@.len(),
    ensures
        r == lit_at(v@, i as int, lit@),
{
    let lc = crate::strutil::str_to_chars(lit);
    let n = lc.len();
    if n > v.len() - i {
        proof {
            assert(!lit_at(v@, i as int, lit@));
        }
        return false;
    }
    let vn = v.len();
    let mut k: usize = 0;
    while k < n
        invariant
            vn == v@.len(),
            n == lit@.len(),
            lc@ == lit@,
            i + n <= v@.len(),
            k <= n,
            forall|l: int| 0 <= l < k ==> v@[i + l] == lit@[l],
        decreases n - k,
    {
        if v[i + k] != lc[k] {
            proof {
                if lit_at(v@, i as int, lit@) {
                    assert(v@.subrange(i as int, i + n as int)[k as int] == v@[i + k]);
                }
            }
            return false;
        }
        k += 1;
    }
    proof {
        assert(v@.subrange(i as int, i + n as int) =~= lit@);
    }
    true
}

/// The members a text value still owes after its kind tag.
fn parse_text_members_exec(
    v: &Vec<char>,
    i: usize,
    value: Option<String>,
    max: Option<Option<usize>>,
) -> (r: Option<(Value, usize)>)
    requires
        i <= v@.len(),
    ensures
        match r {
            Some((val, j)) => parse_text_members(
                v@,
                i as int,
                opt_str_view(value),
                opt_max_view(max),
            ) == Some((val@, j as int)) && i < j <= v@.len(),
            None => parse_text_members(v@, i as int, opt_str_view(value), opt_max_view(max))
                is None,
        },
    decreases v@.len() - i,
{
    let j = skip_ws_exec(v, i);
    if j < v.len() && v[j] == '}' {
        match value {
            Some(val) => {
                let ms = match max {
                    Some(m) => m,
                    None => None,
                };
                Some((Value::Text { value: val, maximum_size: ms }, j + 1))
            },
            None => None,
        }
    } else if j < v.len() && v[j] == ',' {
        let k = skip_ws_exec(v, j + 1);
        match parse_string_exec(v, k) {
            Some((key, k2)) => {
                let k3 = skip_ws_exec(v, k2);
                if k3 < v.len() && v[k3] == ':' {
                    let k4 = skip_ws_exec(v, k3 + 1);
                    if key == String::from_str("value") {
                        if value.is_some() {
                            None
                        } else {
                            match parse_string_exec(v, k4) {
                                Some((sv, k5)) => parse_text_members_exec(v, k5, Some(sv), max),
                                None => None,
                            }
                        }
                    } else if key == String::from_str("maximum_size") {
                        if max.is_some() {
                            None
                        } else if match_lit(v, k4, "null") {
                            proof {
                                reveal_strlit("null");
                            }
                            parse_text_members_exec(v, k4 + 4, value, Some(None))
                        } else {
                            match parse_number_exec(v, k4) {
                                Some((neg, mago, k5)) => match mago {
                                    Some(m) => {
                                        if (!neg || m == 0) && m <= usize::MAX as u64 {
                                            parse_text_members_exec(
                                                v,
                                                k5,
                                                value,
                                                Some(Some(m as usize)),
                                            )
                                        } else {
                                            None
                                        }
                                    },
                                    None => None,
                                },
                                None => None,
                            }
                        }
                    } else {
                        None
                    }
                } else {
                    None
                }
            },
            None => None,
        }
    } else {
        None
    }
}

/// The string array's remainder.
fn parse_strings_rest_exec(v: &Vec<char>, i: usize, acc: Vec<String>) -> (r: Option<
    (Vec<String>, usize),
>)
    requires
        i <= v@.len(),
    ensures
        match r {
            Some((out, j)) => parse_strings_rest(v@, i as int, acc.deep_view()) == Some(
                (out.deep_view(), j as int),
            ) && i < j <= v@.len(),
            None => parse_strings_rest(v@, i as int, acc.deep_view()) is None,
        },
    decreases v@.len() - i,
{
    let ghost accv = acc.deep_view();
    let j = skip_ws_exec(v, i);
    if j < v.len() && v[j] == ']' {
        Some((acc, j + 1))
    } else if j < v.len() && v[j] == ',' {
        let k = skip_ws_exec(v, j + 1);
        match parse_string_exec(v, k) {
            Some((sv, k2)) => {
                let mut acc2 = acc;
                acc2.push(sv);
                proof {
                    assert(acc2.deep_view() =~= accv.push(acc2@[acc2@.len() - 1]@));
                }
                parse_strings_rest_exec(v, k2, acc2)
            },
            None => None,
        }
    } else {
        None
    }
}

/// An array of quoted strings starting at `i`.
fn parse_string_array_exec(v: &Vec<char>, i: usize) -> (r: Option<(Vec<String>, usize)>)
    requires
        i <= v@.len(),
    ensures
        match r {
            Some((out, j)) => parse_string_array(v@, i as int) == Some(
                (out.deep_view(), j as int),
            ) && i < j <= v@.len(),
            None => parse_string_array(v@, i as int) is None,
        },
{
    if i < v.len() && v[i] == '[' {
        let j = skip_ws_exec(v, i + 1);
        if j < v.len() && v[j] == ']' {
            let out: Vec<String> = Vec::new();
            proof {
                assert(out.deep_view() =~= Seq::<Seq<char>>::empty());
            }
            Some((out, j + 1))
        } else {
            match parse_string_exec(v, j) {
                Some((sv, k)) => {
                    let mut acc: Vec<String> = Vec::new();
                    acc.push(sv);
                    proof {
                        assert(acc.deep_view() =~= seq![acc@[0]@]);
                    }
                    parse_strings_rest_exec(v, k, acc)
                },
                None => None,
            }
        }
    } else {
        None
    }
}

/// The members a choice-like value still owes after its kind tag.
fn parse_choice_members_exec(
    v: &Vec<char>,
    i: usize,
    color: bool,
    options: Option<Vec<String>>,
    selected: Option<usize>,
) -> (r: Option<(Value, usize)>)
    requires
        i <= v@.len(),
    ensures
        match r {
            Some((val, j)) => parse_choice_members(
                v@,
                i as int,
                color,
                opt_opts_view(options),
                opt_sel_view(selected),
            ) == Some((val@, j as int)) && i < j <= v@.len(),
            None => parse_choice_members(
                v@,
                i as int,
                color,
                opt_opts_view(options),
                opt_sel_view(selected),
            ) is None,
        },
    decreases v@.len() - i,
{
    let j = skip_ws_exec(v, i);
    if j < v.len() && v[j] == '}' {
        match (options, selected) {
            (Some(opts), Some(sel)) => {
                if (opts.len() == 0 && sel == 0) || sel < opts.len() {
                    if color {
                        Some((Value::Color { options: opts, selected: sel }, j + 1))
                    } else {
                        Some((Value::Choice { options: opts, selected: sel }, j + 1))
                    }
                } else {
                    None
                }
            },
            _ => None,
        }
    } else if j < v.len() && v[j] == ',' {
        let k = skip_ws_exec(v, j + 1);
        match parse_string_exec(v, k) {
            Some((key, k2)) => {
                let k3 = skip_ws_exec(v, k2);
                if k3 < v.len() && v[k3] == ':' {
                    let k4 = skip_ws_exec(v, k3 + 1);
                    if key == String::from_str("options") {
                        if options.is_some() {
                            None
                        } else {
                            match parse_string_array_exec(v, k4) {
                                Some((opts, k5)) => parse_choice_members_exec(
                                    v,
                                    k5,
                                    color,
                                    Some(opts),
                                    selected,
                                ),
                                None => None,
                            }
                        }
                    } else if key == String::from_str("selected") {
                        if selected.is_some() {
                            None
                        } else {
                            match parse_number_exec(v, k4) {
                                Some((neg, mago, k5)) => match mago {
                                    Some(m) => {
                                        if (!neg || m == 0) && m <= usize::MAX as u64 {
                                            parse_choice_members_exec(
                                                v,
                                                k5,
                                                color,
                                                options,
                                                Some(m as usize),
                                            )
                                        } else {
                                            None
                                        }
                                    },
                                    None => None,
                                },
                                None => None,
                            }
                        }
                    } else {
                        None
                    }
                } else {
                    None
                }
            },
            None => None,
        }
    } else {
        None
    }
}

/// The single `value` member an integer value still owes.
fn parse_int_members_exec(v: &Vec<char>, i: usize, value: Option<i64>) -> (r: Option<
    (Value, usize),
>)
    requires
        i <= v@.len(),
    ensures
        match r {
            Some((val, j)) => parse_int_members(v@, i as int, opt_int_view(value)) == Some(
                (val@, j as int),
            ) && i < j <= v@.len(),
            None => parse_int_members(v@, i as int, opt_int_view(value)) is None,
        },
    decreases v@.len() - i,
{
    let j = skip_ws_exec(v, i);
    if j < v.len() && v[j] == '}' {
        match value {
            Some(val) => Some((Value::Integer { value: val }, j + 1)),
            None => None,
        }
    } else if j < v.len() && v[j] == ',' {
        let k = skip_ws_exec(v, j + 1);
        match parse_string_exec(v, k) {
            Some((key, k2)) => {
                let k3 = skip_ws_exec(v, k2);
                if k3 < v.len() && v[k3] == ':' {
                    let k4 = skip_ws_exec(v, k3 + 1);
                    if key == String::from_str("value") && value.is_none() {
                        match parse_number_exec(v, k4) {
                            Some((neg, mago, k5)) => match mago {
                                Some(m) => {
                                    if neg {
                                        if m <= 9223372036854775808u64 {
                                            parse_int_members_exec(
                                                v,
                                                k5,
                                                Some((-(m as i128)) as i64),
                                            )
                                        } else {
                                            None
                                        }
                                    } else {
                                        if m <= 9223372036854775807u64 {
                                            parse_int_members_exec(v, k5, Some(m as i64))
                                        } else {
                                            None
                                        }
                                    }
                                },
                                None => None,
                            },
                            None => None,
                        }
                    } else {
                        None
                    }
                } else {
                    None
                }
            },
            None => None,
        }
    } else {
        None
    }
}

/// The single `value` member a boolean value still owes.
fn parse_bool_members_exec(v: &Vec<char>, i: usize, value: Option<bool>) -> (r: Option<
    (Value, usize),
>)
    requires
        i <= v@.len(),
    ensures
        match r {
            Some((val, j)) => parse_bool_members(v@, i as int, value) == Some((val@, j as int))
                && i < j <= v@.len(),
            None => parse_bool_members(v@, i as int, value) is None,
        },
    decreases v@.len() - i,
{
    let j = skip_ws_exec(v, i);
    if j < v.len() && v[j] == '}' {
        match value {
            Some(val) => Some((Value::Boolean { value: val }, j + 1)),
            None => None,
        }
    } else if j < v.len() && v[j] == ',' {
        let k = skip_ws_exec(v, j + 1);
        match parse_string_exec(v, k) {
            Some((key, k2)) => {
                let k3 = skip_ws_exec(v, k2);
                if k3 < v.len() && v[k3] == ':' {
                    let k4 = skip_ws_exec(v, k3 + 1);
                    if key == String::from_str("value") && value.is_none() {
                        if match_lit(v, k4, "true") {
                            proof {
                                reveal_strlit("true");
                            }
                            parse_bool_members_exec(v, k4 + 4, Some(true))
                        } else if match_lit(v, k4, "false") {
                            proof {
                                reveal_strlit("false");
                            }
                            parse_bool_members_exec(v, k4 + 5, Some(false))
                        } else {
                            None
                        }
                    } else {
                        None
                    }
                } else {
                    None
                }
            },
            None => None,
        }
    } else {
        None
    }
}

/// A value object starting at `i`.
fn parse_value_exec(v: &Vec<char>, i: usize) -> (r: Option<(Value, usize)>)
    requires
        i <= v@.len(),
    ensures
        match r {
            Some((val, j)) => parse_value(v@, i as int) == Some((val@, j as int)) && i < j
                <= v@.len(),
            None => parse_value(v@, i as int) is None,
        },
{
    if i < v.len() && v[i] == '{' {
        let j = skip_ws_exec(v, i + 1);
        match parse_string_exec(v, j) {
            Some((k, j2)) => {
                if k == String::from_str("kind") {
                    let j3 = skip_ws_exec(v, j2);
                    if j3 < v.len() && v[j3] == ':' {
                        let j4 = skip_ws_exec(v, j3 + 1);
                        match parse_string_exec(v, j4) {
                            Some((kind, j5)) => {
                                if kind == String::from_str("text") {
                                    parse_text_members_exec(v, j5, None, None)
                                } else if kind == String::from_str("choice") {
                                    parse_choice_members_exec(v, j5, false, None, None)
                                } else if kind == String::from_str("color") {
                                    parse_choice_members_exec(v, j5, true, None, None)
                                } else if kind == String::from_str("category") {
                                    let j6 = skip_ws_exec(v, j5);
                                    if j6 < v.len() && v[j6] == '}' {
                                        Some((Value::Category, j6 + 1))
                                    } else {
                                        None
                                    }
                                } else if kind == String::from_str("integer") {
                                    parse_int_members_exec(v, j5, None)
                                } else if kind == String::from_str("boolean") {
                                    parse_bool_members_exec(v, j5, None)
                                } else {
                                    None
                                }
                            },
                            None => None,
                        }
                    } else {
                        None
                    }
                } else {
                    None
                }
            },
            None => None,
        }
    } else {
        None
    }
}

/// One member of an entry object.
fn parse_entry_member_exec(
    v: &Vec<char>,
    i: usize,
    key: Option<String>,
    value: Option<Value>,
) -> (r: Option<(Option<String>, Option<Value>, usize)>)
    requires
        i <= v@.len(),
    ensures
        match r {
            Some((key2, value2, j)) => parse_entry_member(
                v@,
                i as int,
                opt_str_view(key),
                opt_value_view(value),
            ) == Some((opt_str_view(key2), opt_value_view(value2), j as int)) && i < j
                <= v@.len(),
            None => parse_entry_member(v@, i as int, opt_str_view(key), opt_value_view(value))
                is None,
        },
{
    match parse_string_exec(v, i) {
        Some((name, k2)) => {
            let k3 = skip_ws_exec(v, k2);
            if k3 < v.len() && v[k3] == ':' {
                let k4 = skip_ws_exec(v, k3 + 1);
                if name == String::from_str("key") && key.is_none() {
                    match parse_string_exec(v, k4) {
                        Some((kk, k5)) => Some((Some(kk), value, k5)),
                        None => None,
                    }
                } else if name == String::from_str("value") && value.is_none() {
                    match parse_value_exec(v, k4) {
                        Some((vv, k5)) => Some((key, Some(vv), k5)),
                        None => None,
                    }
                } else {
                    None
                }
            } else {
                None
            }
        },
        None => None,
    }
}

/// The members an entry still owes after its first member.
fn parse_entry_rest_exec(
    v: &Vec<char>,
    i: usize,
    key: Option<String>,
    value: Option<Value>,
) -> (r: Option<(Entry, usize)>)
    requires
        i <= v@.len(),
    ensures
        match r {
            Some((e, j)) => parse_entry_rest(
                v@,
                i as int,
                opt_str_view(key),
                opt_value_view(value),
            ) == Some((e@, j as int)) && i < j <= v@.len(),
            None => parse_entry_rest(v@, i as int, opt_str_view(key), opt_value_view(value))
                is None,
        },
    decreases v@.len() - i,
{
    let j = skip_ws_exec(v, i);
    if j < v.len() && v[j] == '}' {
        match (key, value) {
            (Some(k), Some(val)) => Some((Entry { key: k, value: val }, j + 1)),
            _ => None,
        }
    } else if j < v.len() && v[j] == ',' {
        let k = skip_ws_exec(v, j + 1);
        match parse_entry_member_exec(v, k, key, value) {
            Some((key2, value2, k2)) => parse_entry_rest_exec(v, k2, key2, value2),
            None => None,
        }
    } else {
        None
    }
}

/// An entry object starting at `i`.
fn parse_entry_exec(v: &Vec<char>, i: usize) -> (r: Option<(Entry, usize)>)
    requires
        i <= v@.len(),
    ensures
        match r {
            Some((e, j)) => parse_entry(v@, i as int) == Some((e@, j as int)) && i < j
                <= v@.len(),
            None => parse_entry(v@, i as int) is None,
        },
{
    if i < v.len() && v[i] == '{' {
        let j = skip_ws_exec(v, i + 1);
        match parse_entry_member_exec(v, j, None, None) {
            Some((key, value, k2)) => parse_entry_rest_exec(v, k2, key, value),
            None => None,
        }
    } else {
        None
    }
}

/// The entry array's remainder.
fn parse_entries_rest_exec(v: &Vec<char>, i: usize, acc: Vec<Entry>) -> (r: Option<
    (Vec<Entry>, usize),
>)
    requires
        i <= v@.len(),
    ensures
        match r {
            Some((out, j)) => parse_entries_rest(v@, i as int, acc.deep_view()) == Some(
                (out.deep_view(), j as int),
            ) && i < j <= v@.len(),
            None => parse_entries_rest(v@, i as int, acc.deep_view()) is None,
        },
    decreases v@.len() - i,
{
    let ghost accv = acc.deep_view();
    let j = skip_ws_exec(v, i);
    if j < v.len() && v[j] == ']' {
        Some((acc, j + 1))
    } else if j < v.len() && v[j] == ',' {
        let k = skip_ws_exec(v, j + 1);
        match parse_entry_exec(v, k) {
            Some((e, k2)) => {
                let mut acc2 = acc;
                acc2.push(e);
                proof {
                    assert(acc2.deep_view() =~= accv.push(acc2@[acc2@.len() - 1]@));
                }
                parse_entries_rest_exec(v, k2, acc2)
            },
            None => None,
        }
    } else {
        None
    }
}

/// An array of entry objects starting at `i`.
fn parse_entries_exec(v: &Vec<char>, i: usize) -> (r: Option<(Vec<Entry>, usize)>)
    requires
        i <= v@.len(),
    ensures
        match r {
            Some((out, j)) => parse_entries(v@, i as int) == Some((out.deep_view(), j as int))
                && i < j <= v@.len(),
            None => parse_entries(v@, i as int) is None,
        },
{
    if i < v.len() && v[i] == '[' {
        let j = skip_ws_exec(v, i + 1);
        if j < v.len() && v[j] == ']' {
            let out: Vec<Entry> = Vec::new();
            proof {
                assert(out.deep_view() =~= Seq::<EntryModel>::empty());
            }
            Some((out, j + 1))
        } else {
            match parse_entry_exec(v, j) {
                Some((e, k)) => {
                    let mut acc: Vec<Entry> = Vec::new();
                    acc.push(e);
                    proof {
                        assert(acc.deep_view() =~= seq![acc@[0]@]);
                    }
                    parse_entries_rest_exec(v, k, acc)
                },
                None => None,
            }
        }
    } else {
        None
    }
}

/// One member of the top object.
fn parse_document_member_exec(
    v: &Vec<char>,
    i: usize,
    filename: Option<String>,
    entries: Option<Vec<Entry>>,
) -> (r: Option<(Option<String>, Option<Vec<Entry>>, usize)>)
    requires
        i <= v@.len(),
    ensures
        match r {
            Some((f2, e2, j)) => parse_document_member(
                v@,
                i as int,
                opt_str_view(filename),
                opt_entries_view(entries),
            ) == Some((opt_str_view(f2), opt_entries_view(e2), j as int)) && i < j <= v@.len(),
            None => parse_document_member(
                v@,
                i as int,
                opt_str_view(filename),
                opt_entries_view(entries),
            ) is None,
        },
{
    match parse_string_exec(v, i) {
        Some((name, k2)) => {
            let k3 = skip_ws_exec(v, k2);
            if k3 < v.len() && v[k3] == ':' {
                let k4 = skip_ws_exec(v, k3 + 1);
                if name == String::from_str("filename") && filename.is_none() {
                    match parse_string_exec(v, k4) {
                        Some((f, k5)) => Some((Some(f), entries, k5)),
                        None => None,
                    }
                } else if name == String::from_str("entries") && entries.is_none() {
                    match parse_entries_exec(v, k4) {
                        Some((es, k5)) => Some((filename, Some(es), k5)),
                        None => None,
                    }
                } else {
                    None
                }
            } else {
                None
            }
        },
        None => None,
    }
}

/// The top object's remainder after its first member.
fn parse_document_rest_exec(
    v: &Vec<char>,
    i: usize,
    filename: Option<String>,
    entries: Option<Vec<Entry>>,
) -> (r: Option<(Config, usize)>)
    requires
        i <= v@.len(),
    ensures
        match r {
            Some((c, j)) => parse_document_rest(
                v@,
                i as int,
                opt_str_view(filename),
                opt_entries_view(entries),
            ) == Some((c@, j as int)) && i < j <= v@.len(),
            None => parse_document_rest(
                v@,
                i as int,
                opt_str_view(filename),
                opt_entries_view(entries),
            ) is None,
        },
    decreases v@.len() - i,
{
    let j = skip_ws_exec(v, i);
    if j < v.len() && v[j] == '}' {
        match (filename, entries) {
            (Some(f), Some(es)) => {
                let c = Config { filename: f, entries: es };
                proof {
                    assert(c@.entries =~= c.entries.deep_view());
                }
                Some((c, j + 1))
            },
            _ => None,
        }
    } else if j < v.len() && v[j] == ',' {
        let k = skip_ws_exec(v, j + 1);
        match parse_document_member_exec(v, k, filename, entries) {
            Some((f2, e2, k2)) => parse_document_rest_exec(v, k2, f2, e2),
            None => None,
        }
    } else {
        None
    }
}

impl Config {
    /// Reads a whole persisted document; anything malformed is rejected.
    pub fn from_document(text: &str) -> (r: Option<Config>)
        ensures
            match r {
                Some(c) => parse_document(text@) == Some(c@),
                None => parse_document(text@) is None,
            },
    {
        let v = crate::strutil::str_to_chars(text);
        let i = skip_ws_exec(&v, 0);
        if i < v.len() && v[i] == '{' {
            let j = skip_ws_exec(&v, i + 1);
            match parse_document_member_exec(&v, j, None, None) {
                Some((f, es, k2)) => {
                    match parse_document_rest_exec(&v, k2, f, es) {
                        Some((c, k3)) => {
                            let k4 = skip_ws_exec(&v, k3);
                            if k4 == v.len() {
                                Some(c)
                            } else {
                                None
                            }
                        },
                        None => None,
                    }
                },
                None => None,
            }
        } else {
            None
        }
    }
}


impl Config {
    /// What a load yields: the parsed document when the stored text exists
    /// and parses, the built-in default schema under the given name
    /// otherwise. A missing or malformed document never fails the caller.
    pub fn load_document(filename: &str, contents: Option<&str>) -> (c: Config)
        ensures
            match contents {
                Some(t) => match parse_document(t@) {
                    Some(m) => c@ == m,
                    None => c@ == (ConfigModel {
                        filename: filename@,
                        entries: crate::schema::spec_default_entries(),
                    }),
                },
                None => c@ == (ConfigModel {
                    filename: filename@,
                    entries: crate::schema::spec_default_entries(),
                }),
            },
            c@.wf(),
    {
        let c = match contents {
            Some(t) => match Config::from_document(t) {
                Some(c) => c,
                None => Config::default(filename),
            },
            None => Config::default(filename),
        };
        proof {
            assert(c@ =~= ConfigModel { filename: c@.filename, entries: c@.entries });
            match contents {
                Some(t) => {
                    crate::codec_laws::lemma_parse_document_sound(t@);
                },
                None => {},
            }
        }
        c
    }
}

} // verus!

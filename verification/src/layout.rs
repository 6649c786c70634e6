//! The list renderer's geometry and text: one formatted line per entry,
//! horizontal centering by the widest line, cursor-centered vertical
//! placement, full-width header bars, and the color-pair lookup.

use vstd::prelude::*;

use crate::digits::dec_int_chars;
use crate::digits::i64_to_string;
use crate::model::Config;
use crate::model::Entry;
use crate::model::EntryModel;
use crate::model::Value;
use crate::model::ValueModel;
use crate::strutil::push_char;

verus! {

use vstd::string::StrSliceExecFns;
use vstd::string::StringExecFns;

/// The terminal color pair that paints header bars.
pub const CATEGORY_PAIR: i16 = 1;

/// A run of blanks.
pub open spec fn spaces(n: nat) -> Seq<char>
    decreases n,
{
    if n == 0 {
        Seq::empty()
    } else {
        spaces((n - 1) as nat).push(' ')
    }
}

/// The key column: keys shorter than twenty characters are padded out to
/// twenty; longer keys stand as they are.
pub open spec fn pad_key(key: Seq<char>) -> Seq<char> {
    if key.len() >= 20 {
        key
    } else {
        key + spaces((20 - key.len()) as nat)
    }
}

/// The value column: quoted text, the bracketed selected option (or a
/// placeholder when the selection points past the list), a bare decimal,
/// or a bracketed boolean.
pub open spec fn value_repr(v: ValueModel) -> Seq<char> {
    match v {
        ValueModel::Text { value, .. } => seq!['"'] + value + seq!['"'],
        ValueModel::Choice { options, selected } => seq!['['] + (if 0 <= selected < options.len() {
            options[selected]
        } else {
            "<?>"@
        }) + seq![']'],
        ValueModel::Color { options, selected } => seq!['['] + (if 0 <= selected < options.len() {
            options[selected]
        } else {
            "<?>"@
        }) + seq![']'],
        ValueModel::Integer { value } => dec_int_chars(value),
        ValueModel::Boolean { value } => seq!['['] + (if value {
            "true"@
        } else {
            "false"@
        }) + seq![']'],
        ValueModel::Category => Seq::empty(),
    }
}

/// A rendered entry line: headers show the bare key; everything else shows
/// the padded key, an equals sign, and the value.
pub open spec fn spec_line(e: EntryModel) -> Seq<char> {
    if e.value is Category {
        e.key
    } else {
        pad_key(e.key) + " = "@ + value_repr(e.value)
    }
}

/// The widest of the rendered lines.
pub open spec fn spec_max_width(lines: Seq<Seq<char>>) -> nat
    decreases lines.len(),
{
    if lines.len() == 0 {
        0nat
    } else {
        let w = lines.last().len();
        let m = spec_max_width(lines.drop_last());
        if w > m {
            w
        } else {
            m
        }
    }
}

/// The left margin that centers a block of the given width: half the
/// leftover space, or the margin disappears when the block is wider than
/// the viewport.
pub open spec fn spec_start_col(max_x: int, maxw: int) -> int {
    if max_x > maxw {
        (max_x - maxw) / 2
    } else {
        0
    }
}

/// The screen row the selected entry is pinned to: half the height,
/// clamped into the list region that spares three lines at the top and
/// three at the bottom.
pub open spec fn spec_center_row(max_y: int) -> int {
    let c = max_y / 2;
    let c2 = if c < 3 {
        3
    } else {
        c
    };
    if c2 > max_y - 3 {
        max_y - 3
    } else {
        c2
    }
}

/// The row an entry lands on: offset from the center row by its distance
/// from the selected entry.
pub open spec fn spec_row(center: int, i: int, selected: int) -> int {
    center + i - selected
}

/// Whether that row lies inside the list region.
pub open spec fn spec_row_visible(max_y: int, row: int) -> bool {
    3 <= row <= max_y - 3
}

/// A header bar: the key centered in a bar as wide as the widest line (or
/// as the key itself, when that is wider).
pub open spec fn spec_category_bar(key: Seq<char>, maxw: nat) -> Seq<char> {
    let bw = if maxw > key.len() {
        maxw
    } else {
        key.len()
    };
    let pl = ((bw - key.len()) / 2) as nat;
    spaces(pl) + key + spaces((bw - key.len() - pl) as nat)
}

/// Appends `n` blanks.
fn push_spaces(s: &mut String, n: usize)
    ensures
        final(s)@ == old(s)@ + spaces(n as nat),
    decreases n,
{
    let mut i: usize = 0;
    while i < n
        invariant
            i <= n,
            s@ == old(s)@ + spaces(i as nat),
        decreases n - i,
    {
        push_char(s, ' ');
        i += 1;
    }
}

/// The key column of one line.
fn render_pad_key(key: &str) -> (r: String)
    ensures
        r@ == pad_key(key@),
{
    let mut s = key.to_owned();
    let n = key.unicode_len();
    if n < 20 {
        push_spaces(&mut s, 20 - n);
    }
    s
}

/// The value column of one line.
fn render_value_repr(v: &Value) -> (r: String)
    ensures
        r@ == value_repr(v@),
{
    match v {
        Value::Text { value, .. } => {
            let mut s = String::from_str("\"");
            s.append(value.as_str());
            s.append("\"");
            proof {
                reveal_strlit("\"");
                assert(seq!['"'] =~= "\""@);
                assert(s@ =~= seq!['"'] + value@ + seq!['"']);
            }
            s
        },
        Value::Choice { options, selected } => {
            let mut s = String::from_str("[");
            if *selected < options.len() {
                s.append(options[*selected].as_str());
            } else {
                s.append("<?>");
            }
            s.append("]");
            proof {
                reveal_strlit("[");
                reveal_strlit("]");
                assert(seq!['['] =~= "["@);
                assert(seq![']'] =~= "]"@);
                assert(s@ =~= value_repr(v@));
            }
            s
        },
        Value::Color { options, selected } => {
            let mut s = String::from_str("[");
            if *selected < options.len() {
                s.append(options[*selected].as_str());
            } else {
                s.append("<?>");
            }
            s.append("]");
            proof {
                reveal_strlit("[");
                reveal_strlit("]");
                assert(seq!['['] =~= "["@);
                assert(seq![']'] =~= "]"@);
                assert(s@ =~= value_repr(v@));
            }
            s
        },
        Value::Integer { value } => i64_to_string(*value),
        Value::Boolean { value } => {
            let mut s = String::from_str("[");
            if *value {
                s.append("true");
            } else {
                s.append("false");
            }
            s.append("]");
            proof {
                reveal_strlit("[");
                reveal_strlit("]");
                assert(seq!['['] =~= "["@);
                assert(seq![']'] =~= "]"@);
                assert(s@ =~= value_repr(v@));
            }
            s
        },
        Value::Category => String::new(),
    }
}

/// One rendered entry line.
pub fn render_line(e: &Entry) -> (r: String)
    ensures
        r@ == spec_line(e@),
{
    match &e.value {
        Value::Category => e.key.clone(),
        _ => {
            let mut s = render_pad_key(e.key.as_str());
            s.append(" = ");
            let repr = render_value_repr(&e.value);
            s.append(repr.as_str());
            proof {
                assert(s@ =~= pad_key(e.key@) + " = "@ + value_repr(e.value@));
            }
            s
        },
    }
}

impl Config {
    /// Every entry line, pre-rendered in display order.
    pub fn render_lines(&self) -> (r: Vec<String>)
        ensures
            r@.len() == self@.entries.len(),
            forall|i: int|
                0 <= i < r@.len() ==> (#[trigger] r@[i])@ == spec_line(self@.entries[i]),
    {
        let mut out: Vec<String> = Vec::new();
        let n = self.entries.len();
        let mut i: usize = 0;
        while i < n
            invariant
                n == self.entries@.len(),
                i <= n,
                out@.len() == i,
                forall|j: int|
                    0 <= j < i ==> (#[trigger] out@[j])@ == spec_line(self@.entries[j]),
            decreases n - i,
        {
            let line = render_line(&self.entries[i]);
            proof {
                assert(self@.entries[i as int] == self.entries@[i as int]@);
            }
            out.push(line);
            i += 1;
        }
        out
    }
}

/// The width of the widest line, in characters.
pub fn max_line_width(lines: &Vec<String>) -> (r: usize)
    ensures
        r as nat == spec_max_width(Seq::new(lines@.len(), |i: int| lines@[i]@)),
{
    let ghost views = Seq::new(lines@.len(), |i: int| lines@[i]@);
    let mut m: usize = 0;
    let mut i: usize = 0;
    while i < lines.len()
        invariant
            i <= lines@.len(),
            views == Seq::new(lines@.len(), |k: int| lines@[k]@),
            m as nat == spec_max_width(views.take(i as int)),
        decreases lines@.len() - i,
    {
        let w = lines[i].as_str().unicode_len();
        proof {
            assert(views.take(i as int + 1).drop_last() =~= views.take(i as int));
            assert(views.take(i as int + 1).last() == lines@[i as int]@);
        }
        if w > m {
            m = w;
        }
        i += 1;
    }
    proof {
        assert(views.take(lines@.len() as int) =~= views);
    }
    m
}

/// The left margin for the whole list.
pub fn start_col(max_x: i32, maxw: usize) -> (r: i32)
    requires
        max_x >= 0,
    ensures
        r as int == spec_start_col(max_x as int, maxw as int),
        r >= 0,
{
    if maxw <= i32::MAX as usize && max_x > maxw as i32 {
        (max_x - maxw as i32) / 2
    } else {
        0
    }
}

/// The fixed row the selected entry is drawn on.
pub fn center_row(max_y: i32) -> (r: i32)
    requires
        max_y >= 0,
    ensures
        r as int == spec_center_row(max_y as int),
{
    let mut c = max_y / 2;
    if c < 3 {
        c = 3;
    }
    if c > max_y - 3 {
        c = max_y - 3;
    }
    c
}

/// The row entry `i` lands on, when it falls inside the list region;
/// entries outside it are not drawn.
pub fn row_for(max_y: i32, center: i32, i: usize, selected: usize) -> (r: Option<i32>)
    requires
        max_y >= 0,
    ensures
        match r {
            Some(row) => row as int == spec_row(center as int, i as int, selected as int)
                && spec_row_visible(max_y as int, row as int),
            None => !spec_row_visible(
                max_y as int,
                spec_row(center as int, i as int, selected as int),
            ),
        },
{
    let row: i128 = center as i128 + i as i128 - selected as i128;
    if 3 <= row && row <= max_y as i128 - 3 {
        Some(row as i32)
    } else {
        None
    }
}

/// A header bar: the key centered between blanks, as wide as the widest
/// line or as the key itself.
pub fn category_bar(key: &str, maxw: usize) -> (r: String)
    ensures
        r@ == spec_category_bar(key@, maxw as nat),
{
    let key_len = key.unicode_len();
    let bw = if maxw > key_len {
        maxw
    } else {
        key_len
    };
    let pl = (bw - key_len) / 2;
    let mut s = String::new();
    push_spaces(&mut s, pl);
    s.append(key);
    push_spaces(&mut s, bw - key_len - pl);
    proof {
        assert(Seq::<char>::empty() + spaces(pl as nat) =~= spaces(pl as nat));
        assert(s@ =~= spec_category_bar(key@, maxw as nat));
    }
    s
}

/// The key column followed by the opening bracket, as a color entry's
/// uncolored prefix is drawn.
pub fn color_prefix(key: &str) -> (r: String)
    ensures
        r@ == pad_key(key@) + " = ["@,
{
    let mut s = render_pad_key(key);
    s.append(" = [");
    s
}


/// The status line's text, cut to the width the terminal offers: at most
/// one column less than the width, and at least one character's room.
pub fn clip_to_width(msg: &str, max_x: i32) -> (r: String)
    ensures
        r@ == (if msg@.len() <= spec_status_width(max_x as int) {
            msg@
        } else {
            msg@.take(spec_status_width(max_x as int) as int)
        }),
{
    let width: usize = if max_x > 1 {
        (max_x - 1) as usize
    } else {
        1
    };
    let n = msg.unicode_len();
    if n <= width {
        msg.to_owned()
    } else {
        let t = msg.substring_char(0, width);
        t.to_owned()
    }
}

/// How many columns the status line may fill.
pub open spec fn spec_status_width(max_x: int) -> nat {
    if max_x > 1 {
        (max_x - 1) as nat
    } else {
        1nat
    }
}

/// The color pair a color name selects, by case-insensitive lookup; names
/// outside the fixed palette have none.
pub open spec fn spec_color_pair(name: Seq<char>) -> Option<i16> {
    let u = upper(name);
    if u == "BLACK"@ {
        Some(2i16)
    } else if u == "RED"@ {
        Some(3i16)
    } else if u == "GREEN"@ {
        Some(4i16)
    } else if u == "YELLOW"@ {
        Some(5i16)
    } else if u == "BLUE"@ {
        Some(6i16)
    } else if u == "MAGENTA"@ {
        Some(7i16)
    } else if u == "CYAN"@ {
        Some(8i16)
    } else if u == "WHITE"@ {
        Some(9i16)
    } else {
        None
    }
}

/// ASCII uppercasing of one character.
pub open spec fn upper_char(c: char) -> char {
    if 97 <= c as u32 <= 122 {
        ((c as u32 - 32) as u32) as char
    } else {
        c
    }
}

/// ASCII uppercasing, character by character.
pub open spec fn upper(s: Seq<char>) -> Seq<char> {
    s.map_values(|c: char| upper_char(c))
}

/// Maps a color name to the color pair that paints it.
pub fn color_name_to_pair(name: &str) -> (r: Option<i16>)
    ensures
        r == spec_color_pair(name@),
{
    let chars = crate::strutil::str_to_chars(name);
    let mut up = String::new();
    let mut i: usize = 0;
    while i < chars.len()
        invariant
            i <= chars@.len(),
            chars@ == name@,
            up@ == upper(name@).take(i as int),
        decreases chars@.len() - i,
    {
        push_char(&mut up, upper_char_exec(chars[i]));
        proof {
            assert(upper(name@).take(i as int).push(upper(name@)[i as int]) =~= upper(
                name@,
            ).take(i as int + 1));
        }
        i += 1;
    }
    proof {
        assert(upper(name@).take(name@.len() as int) =~= upper(name@));
    }
    if up == String::from_str("BLACK") {
        Some(2)
    } else if up == String::from_str("RED") {
        Some(3)
    } else if up == String::from_str("GREEN") {
        Some(4)
    } else if up == String::from_str("YELLOW") {
        Some(5)
    } else if up == String::from_str("BLUE") {
        Some(6)
    } else if up == String::from_str("MAGENTA") {
        Some(7)
    } else if up == String::from_str("CYAN") {
        Some(8)
    } else if up == String::from_str("WHITE") {
        Some(9)
    } else {
        None
    }
}

/// One character, uppercased if it is a lowercase ASCII letter.
fn upper_char_exec(c: char) -> (r: char)
    ensures
        r == upper_char(c),
{
    broadcast use vstd::utf8::char_u32_cast;

    match c {
        'a' => 'A',
        'b' => 'B',
        'c' => 'C',
        'd' => 'D',
        'e' => 'E',
        'f' => 'F',
        'g' => 'G',
        'h' => 'H',
        'i' => 'I',
        'j' => 'J',
        'k' => 'K',
        'l' => 'L',
        'm' => 'M',
        'n' => 'N',
        'o' => 'O',
        'p' => 'P',
        'q' => 'Q',
        'r' => 'R',
        's' => 'S',
        't' => 'T',
        'u' => 'U',
        'v' => 'V',
        'w' => 'W',
        'x' => 'X',
        'y' => 'Y',
        'z' => 'Z',
        _ => c,
    }
}

} // verus!

//! Decimal notation for integers, as character sequences: rendering,
//! scanning, and parsing, with the round-trip facts the document codec
//! needs.

use vstd::prelude::*;

verus! {

use vstd::arithmetic::div_mod::lemma_fundamental_div_mod;

/// The character for one decimal digit.
pub open spec fn dec_digit(d: int) -> char {
    if d == 0 {
        '0'
    } else if d == 1 {
        '1'
    } else if d == 2 {
        '2'
    } else if d == 3 {
        '3'
    } else if d == 4 {
        '4'
    } else if d == 5 {
        '5'
    } else if d == 6 {
        '6'
    } else if d == 7 {
        '7'
    } else if d == 8 {
        '8'
    } else {
        '9'
    }
}

pub open spec fn is_dec_digit(c: char) -> bool {
    48 <= c as u32 <= 57
}

/// The numeric value of a digit character.
pub open spec fn digit_val(c: char) -> int {
    c as u32 - 48
}

/// Decimal notation of a non-negative integer, most significant digit
/// first, without a sign and without leading zeros (`0` itself excepted).
pub open spec fn dec_nat_chars(n: nat) -> Seq<char>
    decreases n,
{
    if n < 10 {
        seq![dec_digit(n as int)]
    } else {
        dec_nat_chars(n / 10) + seq![dec_digit((n % 10) as int)]
    }
}

/// Decimal notation of an integer: a minus sign when negative, then the
/// digits of its magnitude.
pub open spec fn dec_int_chars(v: int) -> Seq<char> {
    if v < 0 {
        seq!['-'] + dec_nat_chars((-v) as nat)
    } else {
        dec_nat_chars(v as nat)
    }
}

pub open spec fn all_digits(s: Seq<char>) -> bool {
    forall|i: int| 0 <= i < s.len() ==> is_dec_digit(#[trigger] s[i])
}

/// The value denoted by a digit string (most significant digit first).
pub open spec fn digits_val(s: Seq<char>) -> int
    decreases s.len(),
{
    if s.len() == 0 {
        0
    } else {
        digits_val(s.drop_last()) * 10 + digit_val(s.last())
    }
}

/// A signed decimal literal: an optional minus sign, then at least one
/// digit and nothing else.
pub open spec fn is_int_literal(s: Seq<char>) -> bool {
    if s.len() == 0 {
        false
    } else if s[0] == '-' {
        s.len() >= 2 && all_digits(s.skip(1))
    } else {
        all_digits(s)
    }
}

/// The value of a signed decimal literal.
pub open spec fn int_literal_val(s: Seq<char>) -> int {
    if s.len() > 0 && s[0] == '-' {
        -digits_val(s.skip(1))
    } else {
        digits_val(s)
    }
}

/// The position where a run of digit characters starting at `i` ends.
pub open spec fn digits_end(s: Seq<char>, i: int) -> int
    decreases s.len() - i,
    when 0 <= i <= s.len()
{
    if i < s.len() && is_dec_digit(s[i]) {
        digits_end(s, i + 1)
    } else {
        i
    }
}

pub proof fn lemma_digits_end(s: Seq<char>, i: int)
    requires
        0 <= i <= s.len(),
    ensures
        i <= digits_end(s, i) <= s.len(),
        forall|k: int| i <= k < digits_end(s, i) ==> is_dec_digit(#[trigger] s[k]),
        digits_end(s, i) < s.len() ==> !is_dec_digit(s[digits_end(s, i)]),
    decreases s.len() - i,
{
    if i < s.len() && is_dec_digit(s[i]) {
        lemma_digits_end(s, i + 1);
    }
}

/// A digit run that stops at a non-digit (or the end) is exactly what
/// `digits_end` finds.
pub proof fn lemma_digits_end_of_range(s: Seq<char>, i: int, j: int)
    requires
        0 <= i <= j <= s.len(),
        forall|k: int| i <= k < j ==> is_dec_digit(#[trigger] s[k]),
        j < s.len() ==> !is_dec_digit(s[j]),
    ensures
        digits_end(s, i) == j,
    decreases j - i,
{
    if i < j {
        lemma_digits_end_of_range(s, i + 1, j);
    }
}

pub proof fn lemma_digits_val_nonneg(s: Seq<char>)
    requires
        all_digits(s),
    ensures
        digits_val(s) >= 0,
    decreases s.len(),
{
    if s.len() > 0 {
        assert(all_digits(s.drop_last()));
        lemma_digits_val_nonneg(s.drop_last());
    }
}

/// Appending one digit multiplies the value by ten and adds the digit.
pub proof fn lemma_digits_val_push(s: Seq<char>, c: char)
    ensures
        digits_val(s.push(c)) == digits_val(s) * 10 + digit_val(c),
{
    assert(s.push(c).drop_last() =~= s);
    assert(s.push(c).last() == c);
}

/// Decimal notation consists of digits and reads back to the number it
/// was printed from.
pub proof fn lemma_dec_nat_chars(n: nat)
    ensures
        dec_nat_chars(n).len() >= 1,
        all_digits(dec_nat_chars(n)),
        digits_val(dec_nat_chars(n)) == n,
    decreases n,
{
    if n < 10 {
        reveal_with_fuel(digits_val, 2);
        let s = dec_nat_chars(n);
        assert(s.drop_last() =~= Seq::<char>::empty());
        assert(digits_val(Seq::<char>::empty()) == 0);
        assert(digit_val(dec_digit(n as int)) == n);
    } else {
        lemma_dec_nat_chars(n / 10);
        let a = dec_nat_chars(n / 10);
        let c = dec_digit((n % 10) as int);
        assert(a + seq![c] =~= a.push(c));
        lemma_digits_val_push(a, c);
        assert(digit_val(c) == n % 10);
        lemma_fundamental_div_mod(n as int, 10);
        assert(all_digits(a.push(c)));
    }
}

/// Decimal notation of an integer is a signed decimal literal denoting
/// that integer.
pub proof fn lemma_dec_int_chars(v: int)
    ensures
        dec_int_chars(v).len() >= 1,
        is_int_literal(dec_int_chars(v)),
        int_literal_val(dec_int_chars(v)) == v,
{
    if v < 0 {
        lemma_dec_nat_chars((-v) as nat);
        let s = dec_int_chars(v);
        assert(s[0] == '-');
        assert(s.skip(1) =~= dec_nat_chars((-v) as nat));
        assert(!is_dec_digit('-'));
    } else {
        lemma_dec_nat_chars(v as nat);
        let s = dec_int_chars(v);
        if s[0] == '-' {
            assert(is_dec_digit(s[0]));
            assert(!is_dec_digit('-'));
        }
    }
}

pub fn digit_char(d: u64) -> (c: char)
    requires
        d < 10,
    ensures
        c == dec_digit(d as int),
{
    match d {
        0 => '0',
        1 => '1',
        2 => '2',
        3 => '3',
        4 => '4',
        5 => '5',
        6 => '6',
        7 => '7',
        8 => '8',
        _ => '9',
    }
}

/// Appends the decimal notation of `v` to `s`.
pub fn push_dec_u64(s: &mut String, v: u64)
    ensures
        final(s)@ == old(s)@ + dec_nat_chars(v as nat),
    decreases v,
{
    if v >= 10 {
        push_dec_u64(s, v / 10);
        let ghost mid = s@;
        crate::strutil::push_char(s, digit_char(v % 10));
        proof {
            assert(mid.push(dec_digit((v % 10) as int)) =~= old(s)@ + dec_nat_chars(v as nat));
        }
    } else {
        crate::strutil::push_char(s, digit_char(v));
        proof {
            assert(old(s)@.push(dec_digit(v as int)) =~= old(s)@ + dec_nat_chars(v as nat));
        }
    }
}

/// The decimal string form of an integer, as `get_string` and the list
/// renderer show it.
pub fn i64_to_string(v: i64) -> (s: String)
    ensures
        s@ == dec_int_chars(v as int),
{
    let mut s = String::new();
    if v < 0 {
        crate::strutil::push_char(&mut s, '-');
        let m: u64 = (-(v as i128)) as u64;
        push_dec_u64(&mut s, m);
        proof {
            assert(Seq::<char>::empty().push('-') =~= seq!['-']);
        }
    } else {
        push_dec_u64(&mut s, v as u64);
        proof {
            assert(Seq::<char>::empty() + dec_nat_chars(v as nat) =~= dec_nat_chars(v as nat));
        }
    }
    s
}

pub fn is_digit_char(c: char) -> (r: bool)
    ensures
        r == is_dec_digit(c),
{
    let u = c as u32;
    48 <= u && u <= 57
}

/// The first position at or after `from` that does not hold a digit.
pub fn scan_digits(v: &Vec<char>, from: usize) -> (j: usize)
    requires
        from <= v@.len(),
    ensures
        j == digits_end(v@, from as int),
{
    let mut i = from;
    proof {
        lemma_digits_end(v@, from as int);
        lemma_digits_end_of_range(v@, from as int, digits_end(v@, from as int));
    }
    let ghost e = digits_end(v@, from as int);
    while i < v.len() && is_digit_char(v[i])
        invariant
            from <= i <= v@.len(),
            i <= e <= v@.len(),
            forall|k: int| from <= k < e ==> is_dec_digit(#[trigger] v@[k]),
            e < v@.len() ==> !is_dec_digit(v@[e as int]),
            forall|k: int| from <= k < i ==> is_dec_digit(#[trigger] v@[k]),
        decreases v@.len() - i,
    {
        i += 1;
    }
    proof {
        lemma_digits_end_of_range(v@, from as int, i as int);
    }
    i
}

/// The value of the digit run `v[from..to]`, when it fits in a `u64`.
pub fn digits_to_u64(v: &Vec<char>, from: usize, to: usize) -> (r: Option<u64>)
    requires
        from <= to <= v@.len(),
        forall|k: int| from <= k < to ==> is_dec_digit(#[trigger] v@[k]),
    ensures
        match r {
            Some(a) => a as int == digits_val(v@.subrange(from as int, to as int)),
            None => digits_val(v@.subrange(from as int, to as int)) > u64::MAX,
        },
{
    let mut i = from;
    let mut acc: Option<u64> = Some(0);
    proof {
        assert(v@.subrange(from as int, from as int) =~= Seq::<char>::empty());
    }
    while i < to
        invariant
            from <= i <= to <= v@.len(),
            forall|k: int| from <= k < to ==> is_dec_digit(#[trigger] v@[k]),
            match acc {
                Some(a) => a as int == digits_val(v@.subrange(from as int, i as int)),
                None => digits_val(v@.subrange(from as int, i as int)) > u64::MAX,
            },
        decreases to - i,
    {
        let ghost pre = v@.subrange(from as int, i as int);
        let c = v[i];
        let d: u64 = (c as u32 - 48) as u64;
        proof {
            assert(pre.push(c) =~= v@.subrange(from as int, i as int + 1));
            lemma_digits_val_push(pre, c);
            assert(all_digits(pre));
            lemma_digits_val_nonneg(pre);
        }
        acc = match acc {
            Some(a) => {
                match a.checked_mul(10) {
                    Some(m) => m.checked_add(d),
                    None => None,
                }
            },
            None => None,
        };
        i += 1;
    }
    acc
}

/// Parses a signed decimal literal as `i64`; anything else, or a value
/// outside the `i64` range, is rejected.
pub fn parse_i64(s: &str) -> (r: Option<i64>)
    ensures
        match r {
            Some(x) => is_int_literal(s@) && x as int == int_literal_val(s@),
            None => !is_int_literal(s@) || int_literal_val(s@) < i64::MIN || int_literal_val(s@)
                > i64::MAX,
        },
{
    let v = crate::strutil::str_to_chars(s);
    let n = v.len();
    if n == 0 {
        return None;
    }
    let neg = v[0] == '-';
    let start: usize = if neg {
        1
    } else {
        0
    };
    let e = scan_digits(&v, start);
    proof {
        lemma_digits_end(v@, start as int);
    }
    if e != n {
        // A non-digit stands where only digits may: not a literal.
        assert(!is_dec_digit(s@[e as int]));
        if neg {
            assert(s@.skip(1)[e - 1] == s@[e as int]);
        }
        return None;
    }
    if e == start {
        // Empty, or a lone minus sign.
        return None;
    }
    proof {
        if neg {
            assert(s@.skip(1) =~= v@.subrange(start as int, e as int));
        } else {
            assert(s@ =~= v@.subrange(start as int, e as int));
        }
        lemma_digits_val_nonneg(v@.subrange(start as int, e as int));
    }
    match digits_to_u64(&v, start, e) {
        None => None,
        Some(a) => {
            if neg {
                if a <= 9223372036854775808u64 {
                    Some((-(a as i128)) as i64)
                } else {
                    None
                }
            } else {
                if a <= 9223372036854775807u64 {
                    Some(a as i64)
                } else {
                    None
                }
            }
        },
    }
}

} // verus!

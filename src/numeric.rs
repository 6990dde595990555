//! Normalisation of noisy numeric text (`"1.234,56"`, `"1.5k$"`) into a plain
//! decimal numeral and a power of ten.
use vstd::prelude::*;
use crate::text::{chars_of, string_of};

verus! {

/// What `str::to_lowercase` makes of a text.
pub uninterp spec fn lower_of(s: Seq<char>) -> Seq<char>;

/// Relies on `str::to_lowercase`: the lowercase mapping of Unicode, which
/// depends on the characters of `s` alone.
#[verifier::external_body]
fn lowercase(s: &str) -> (r: String)
    ensures
        r@ == lower_of(s@),
{
    s.to_lowercase()
}

/// An ASCII decimal digit.
pub open spec fn is_digit(c: char) -> bool {
    48 <= c as u32 && c as u32 <= 57
}

/// A magnitude letter: thousand, million or billion.
pub open spec fn is_suffix_letter(c: char) -> bool {
    c == 'k' || c == 'm' || c == 'b'
}

/// Where the text holds a comma, the comma is the decimal mark and every dot
/// a thousands separator, so the dots go.
pub open spec fn without_grouping(s: Seq<char>) -> Seq<char> {
    if s.contains(',') {
        s.filter(|c: char| c != '.')
    } else {
        s
    }
}

/// Every comma turned into a dot.
pub open spec fn commas_as_dots(s: Seq<char>) -> Seq<char> {
    s.map_values(|c: char| if c == ',' { '.' } else { c })
}

/// Only the digits, dots and magnitude letters of `s`.
pub open spec fn numeric_chars(s: Seq<char>) -> Seq<char> {
    s.filter(|c: char| is_digit(c) || c == '.' || is_suffix_letter(c))
}

/// The power of ten that a trailing magnitude letter stands for.
pub open spec fn magnitude_of(s: Seq<char>) -> nat {
    if s.len() > 0 && s.last() == 'k' {
        3
    } else if s.len() > 0 && s.last() == 'm' {
        6
    } else if s.len() > 0 && s.last() == 'b' {
        9
    } else {
        0
    }
}

/// Only the digits and dots of `s`.
pub open spec fn digits_and_dots(s: Seq<char>) -> Seq<char> {
    s.filter(|c: char| is_digit(c) || c == '.')
}

/// A text of digits and dots that reads as a decimal number: at least one
/// digit and at most one dot.
pub open spec fn is_decimal(m: Seq<char>) -> bool {
    &&& exists|i: int| 0 <= i < m.len() && is_digit(#[trigger] m[i])
    &&& forall|i: int, j: int| 0 <= i < j < m.len() ==> !(m[i] == '.' && m[j] == '.')
}

/// The numeral and power of ten that lowercased numeric text stands for, or
/// `None` where what is left is no decimal number.
pub open spec fn numeral_of(lowered: Seq<char>) -> Option<(Seq<char>, nat)> {
    let kept = numeric_chars(commas_as_dots(without_grouping(lowered)));
    let m = digits_and_dots(kept);
    if is_decimal(m) {
        Some((m, magnitude_of(kept)))
    } else {
        None
    }
}

/// A decimal numeral scaled by a power of ten: `digits × 10^magnitude`.
#[derive(Clone, Debug)]
pub struct Numeral {
    /// Digits with at most one dot, and at least one digit.
    pub digits: String,
    /// The power of ten: 0, 3, 6 or 9.
    pub magnitude: u32,
}

impl View for Numeral {
    type V = (Seq<char>, nat);

    open spec fn view(&self) -> (Seq<char>, nat) {
        (self.digits@, self.magnitude as nat)
    }
}

/// The view of an optional numeral.
pub open spec fn numeral_view(r: Option<Numeral>) -> Option<(Seq<char>, nat)> {
    match r {
        Some(n) => Some(n@),
        None => None,
    }
}

fn is_digit_exec(c: char) -> (r: bool)
    ensures
        r == is_digit(c),
{
    let u = c as u32;
    48 <= u && u <= 57
}

fn has_comma(cs: &Vec<char>) -> (r: bool)
    ensures
        r == cs@.contains(','),
{
    let mut i: usize = 0;
    while i < cs.len()
        invariant
            i <= cs.len(),
            forall|j: int| 0 <= j < i ==> cs@[j] != ',',
        decreases cs.len() - i,
    {
        if cs[i] == ',' {
            return true;
        }
        i = i + 1;
    }
    false
}

fn drop_dots(cs: &Vec<char>) -> (r: Vec<char>)
    ensures
        r@ == cs@.filter(|c: char| c != '.'),
{
    let ghost p = |c: char| c != '.';
    let mut out: Vec<char> = Vec::new();
    let mut i: usize = 0;
    while i < cs.len()
        invariant
            i <= cs.len(),
            p == (|c: char| c != '.'),
            out@ == cs@.subrange(0, i as int).filter(p),
        decreases cs.len() - i,
    {
        proof {
            assert(cs@.subrange(0, i + 1) =~= cs@.subrange(0, i as int).push(cs@[i as int]));
            cs@.subrange(0, i as int).lemma_filter_push(cs@[i as int], p);
        }
        if cs[i] != '.' {
            out.push(cs[i]);
        }
        i = i + 1;
    }
    assert(cs@.subrange(0, cs.len() as int) =~= cs@);
    out
}

fn comma_to_dot(cs: &Vec<char>) -> (r: Vec<char>)
    ensures
        r@ == commas_as_dots(cs@),
{
    let mut out: Vec<char> = Vec::new();
    let mut i: usize = 0;
    while i < cs.len()
        invariant
            i <= cs.len(),
            out@ == commas_as_dots(cs@.subrange(0, i as int)),
        decreases cs.len() - i,
    {
        let c = cs[i];
        if c == ',' {
            out.push('.');
        } else {
            out.push(c);
        }
        i = i + 1;
        assert(out@ =~= commas_as_dots(cs@.subrange(0, i as int)));
    }
    assert(cs@.subrange(0, cs.len() as int) =~= cs@);
    out
}

fn keep_numeric(cs: &Vec<char>) -> (r: Vec<char>)
    ensures
        r@ == numeric_chars(cs@),
{
    let ghost p = |c: char| is_digit(c) || c == '.' || is_suffix_letter(c);
    let mut out: Vec<char> = Vec::new();
    let mut i: usize = 0;
    while i < cs.len()
        invariant
            i <= cs.len(),
            p == (|c: char| is_digit(c) || c == '.' || is_suffix_letter(c)),
            out@ == cs@.subrange(0, i as int).filter(p),
        decreases cs.len() - i,
    {
        proof {
            assert(cs@.subrange(0, i + 1) =~= cs@.subrange(0, i as int).push(cs@[i as int]));
            cs@.subrange(0, i as int).lemma_filter_push(cs@[i as int], p);
        }
        let c = cs[i];
        if is_digit_exec(c) || c == '.' || c == 'k' || c == 'm' || c == 'b' {
            out.push(c);
        }
        i = i + 1;
    }
    assert(cs@.subrange(0, cs.len() as int) =~= cs@);
    out
}

fn keep_digits_and_dots(cs: &Vec<char>) -> (r: Vec<char>)
    ensures
        r@ == digits_and_dots(cs@),
{
    let ghost p = |c: char| is_digit(c) || c == '.';
    let mut out: Vec<char> = Vec::new();
    let mut i: usize = 0;
    while i < cs.len()
        invariant
            i <= cs.len(),
            p == (|c: char| is_digit(c) || c == '.'),
            out@ == cs@.subrange(0, i as int).filter(p),
        decreases cs.len() - i,
    {
        proof {
            assert(cs@.subrange(0, i + 1) =~= cs@.subrange(0, i as int).push(cs@[i as int]));
            cs@.subrange(0, i as int).lemma_filter_push(cs@[i as int], p);
        }
        let c = cs[i];
        if is_digit_exec(c) || c == '.' {
            out.push(c);
        }
        i = i + 1;
    }
    assert(cs@.subrange(0, cs.len() as int) =~= cs@);
    out
}

fn magnitude(cs: &Vec<char>) -> (r: u32)
    ensures
        r as nat == magnitude_of(cs@),
{
    if cs.len() == 0 {
        0
    } else {
        let c = cs[cs.len() - 1];
        if c == 'k' {
            3
        } else if c == 'm' {
            6
        } else if c == 'b' {
            9
        } else {
            0
        }
    }
}

fn decimal_check(m: &Vec<char>) -> (r: bool)
    ensures
        r == is_decimal(m@),
{
    let mut digit_seen = false;
    let mut dot_at: Option<usize> = None;
    let mut i: usize = 0;
    while i < m.len()
        invariant
            i <= m.len(),
            digit_seen == exists|j: int| 0 <= j < i && is_digit(#[trigger] m@[j]),
            forall|a: int, b: int| 0 <= a < b < i ==> !(m@[a] == '.' && m@[b] == '.'),
            match dot_at {
                Some(d) => d < i && m@[d as int] == '.',
                None => forall|j: int| 0 <= j < i ==> m@[j] != '.',
            },
        decreases m.len() - i,
    {
        let c = m[i];
        if c == '.' {
            match dot_at {
                Some(d) => {
                    assert(m@[d as int] == '.' && m@[i as int] == '.');
                    return false;
                },
                None => {
                    dot_at = Some(i);
                },
            }
        }
        if is_digit_exec(c) {
            digit_seen = true;
        }
        i = i + 1;
        assert(digit_seen == exists|j: int| 0 <= j < i && is_digit(#[trigger] m@[j])) by {
            if is_digit(m@[i - 1]) {
                assert(0 <= i - 1 < i && is_digit(m@[i - 1]));
            }
        }
    }
    digit_seen
}

/// The numeral that already lowercased numeric text stands for, as
/// `numeral_of` states it.
pub fn numeral_from_lowercase(lowered: &str) -> (r: Option<Numeral>)
    ensures
        numeral_view(r) == numeral_of(lowered@),
{
    let cs = chars_of(lowered);
    let ungrouped = if has_comma(&cs) {
        drop_dots(&cs)
    } else {
        cs
    };
    let dotted = comma_to_dot(&ungrouped);
    let kept = keep_numeric(&dotted);
    let m = keep_digits_and_dots(&kept);
    if decimal_check(&m) {
        Some(Numeral { digits: string_of(&m), magnitude: magnitude(&kept) })
    } else {
        None
    }
}

/// Normalises noisy numeric text: lowercases it, settles which mark is the
/// decimal one, keeps digits, dots and a trailing magnitude letter (`k`, `m`,
/// `b`), and returns the numeral with its power of ten, or `None` where no
/// decimal number is left.
pub fn normalize(raw: &str) -> (r: Option<Numeral>)
    ensures
        numeral_view(r) == numeral_of(lower_of(raw@)),
{
    let lowered = lowercase(raw);
    numeral_from_lowercase(lowered.as_str())
}

} // verus!

//! Typed cell values, and the rule that decides whether the text of a
//! spreadsheet cell is kept as text or read as a number.
//!
//! A number is held as the decimal numeral it was written as.  A cell becomes
//! a number only when its text is the plain notation of a decimal number, so
//! that writing the number back gives the text again: identifiers such as
//! `0012345`, or numerals with more digits than a number can hold exactly,
//! stay text.

use vstd::prelude::*;
use crate::text::{from_chars, to_chars};

verus! {

/// The largest number of digits of a cell that is read as a number.
pub const MAX_DIGITS: usize = 15;

/// A digit `0` to `9`.
pub open spec fn is_digit(c: char) -> bool {
    0x30 <= c as u32 <= 0x39
}

/// A character that a numeric-looking cell is made of: a digit, a sign or a point.
pub open spec fn is_numeric_char(c: char) -> bool {
    is_digit(c) || c == '.' || c == '-' || c == '+'
}

/// The number of digits in `s`.
pub open spec fn digit_count(s: Seq<char>) -> nat
    decreases s.len(),
{
    if s.len() == 0 {
        0
    } else {
        digit_count(s.drop_last()) + if is_digit(s.last()) {
            1nat
        } else {
            0nat
        }
    }
}

/// Every character of `s` is a digit.
pub open spec fn all_digits(s: Seq<char>) -> bool {
    forall|i: int| 0 <= i < s.len() ==> is_digit(#[trigger] s[i])
}

/// Every character of `s` is a digit, a sign or a point.
pub open spec fn looks_numeric(s: Seq<char>) -> bool {
    forall|i: int| 0 <= i < s.len() ==> is_numeric_char(#[trigger] s[i])
}

/// `s` without a leading minus sign.
pub open spec fn unsigned_part(s: Seq<char>) -> Seq<char> {
    if s.len() > 0 && s.first() == '-' {
        s.drop_first()
    } else {
        s
    }
}

/// The position of the first point in `s`, or the length of `s` where it has none.
pub open spec fn point_index(s: Seq<char>) -> nat
    decreases s.len(),
{
    if s.len() == 0 || s.first() == '.' {
        0
    } else {
        1 + point_index(s.drop_first())
    }
}

/// Whether `s` holds a point.
pub open spec fn has_point(s: Seq<char>) -> bool {
    point_index(unsigned_part(s)) < unsigned_part(s).len()
}

/// What stands between the sign and the first point.
pub open spec fn integer_part(s: Seq<char>) -> Seq<char> {
    unsigned_part(s).take(point_index(unsigned_part(s)) as int)
}

/// What stands behind the first point; empty where there is no point.
pub open spec fn fraction_part(s: Seq<char>) -> Seq<char> {
    if has_point(s) {
        unsigned_part(s).skip(point_index(unsigned_part(s)) as int + 1)
    } else {
        Seq::empty()
    }
}

/// The plain notation of a decimal number: an optional minus sign; an integer
/// part of one or more digits that does not begin with `0` unless it is `0`
/// itself; and, optionally, a point and a fraction part of one or more digits
/// that does not end in `0`.  It is the notation in which a number is written
/// back, so a text in it is reproduced by reading and writing it.
pub open spec fn is_canonical_decimal(s: Seq<char>) -> bool {
    &&& integer_part(s).len() > 0
    &&& all_digits(integer_part(s))
    &&& integer_part(s).len() == 1 || integer_part(s).first() != '0'
    &&& has_point(s) ==> {
        &&& fraction_part(s).len() > 0
        &&& all_digits(fraction_part(s))
        &&& fraction_part(s).last() != '0'
    }
}

/// A numeric-looking text that begins with `0`, is longer than one character
/// and has no point: an identifier such as a postal code.
pub open spec fn has_leading_zero(s: Seq<char>) -> bool {
    s.len() > 1 && s.first() == '0' && !s.contains('.')
}

/// Whether a cell with the text `s`, which is not empty, is read as a number.
/// It is, unless it holds a character other than digits, signs and points;
/// holds more than `MAX_DIGITS` digits; has a leading zero; or is not in the
/// notation in which the number would be written back.  A sign and a point do
/// not count as digits.
pub open spec fn reads_as_number(s: Seq<char>) -> bool {
    &&& looks_numeric(s)
    &&& digit_count(s) <= MAX_DIGITS
    &&& !has_leading_zero(s)
    &&& is_canonical_decimal(s)
}

/// A decimal number, held as its numeral in plain notation.
#[derive(Debug, PartialEq, Eq)]
pub struct Numeral {
    text: String,
}

impl View for Numeral {
    type V = Seq<char>;

    closed spec fn view(&self) -> Seq<char> {
        self.text@
    }
}

impl Numeral {
    #[verifier::type_invariant]
    spec fn well_formed(&self) -> bool {
        is_canonical_decimal(self.text@)
    }

    /// Reads a numeral; `None` where `s` is not in plain decimal notation.
    pub fn parse(s: &str) -> (r: Option<Numeral>)
        ensures
            r is Some <==> is_canonical_decimal(s@),
            r matches Some(n) ==> n@ == s@,
    {
        let v: Vec<char> = to_chars(s);
        if chars_are_canonical(&v) {
            Some(Numeral { text: from_chars(&v) })
        } else {
            None
        }
    }

    /// The numeral.
    pub fn as_str(&self) -> (s: &str)
        ensures
            s@ == self@,
            is_canonical_decimal(s@),
    {
        proof {
            use_type_invariant(self);
        }
        self.text.as_str()
    }

    /// The numeral, as an owned string.
    pub fn to_text(&self) -> (s: String)
        ensures
            s@ == self@,
            is_canonical_decimal(s@),
    {
        proof {
            use_type_invariant(self);
        }
        self.text.clone()
    }
}

impl Clone for Numeral {
    fn clone(&self) -> (r: Self)
        ensures
            r@ == self@,
    {
        proof {
            use_type_invariant(self);
        }
        Numeral { text: self.text.clone() }
    }
}

/// A typed cell value.
#[derive(Debug, PartialEq, Eq)]
pub enum CellValue {
    Null,
    Bool(bool),
    Number(Numeral),
    Text(String),
}

/// The mathematical model of a cell value.
pub enum CellModel {
    Null,
    Bool(bool),
    Number(Seq<char>),
    Text(Seq<char>),
}

impl View for CellValue {
    type V = CellModel;

    open spec fn view(&self) -> CellModel {
        match self {
            CellValue::Null => CellModel::Null,
            CellValue::Bool(b) => CellModel::Bool(*b),
            CellValue::Number(n) => CellModel::Number(n@),
            CellValue::Text(s) => CellModel::Text(s@),
        }
    }
}

impl Clone for CellValue {
    fn clone(&self) -> (r: Self)
        ensures
            r@ == self@,
    {
        match self {
            CellValue::Null => CellValue::Null,
            CellValue::Bool(b) => CellValue::Bool(*b),
            CellValue::Number(n) => CellValue::Number(n.clone()),
            CellValue::Text(s) => CellValue::Text(s.clone()),
        }
    }
}

/// The value of a cell with the text `s`: null for an empty cell, a number
/// where the text reads as one, the text itself otherwise.
pub open spec fn coerced(s: Seq<char>) -> CellModel {
    if s.len() == 0 {
        CellModel::Null
    } else if reads_as_number(s) {
        CellModel::Number(s)
    } else {
        CellModel::Text(s)
    }
}

/// Types the text of one cell.
pub fn coerce_cell(text: &str) -> (value: CellValue)
    ensures
        value@ == coerced(text@),
{
    let v: Vec<char> = to_chars(text);
    if v.len() == 0 {
        return CellValue::Null;
    }
    if count_digits(&v) <= MAX_DIGITS && chars_look_numeric(&v) && !chars_have_leading_zero(&v) {
        match Numeral::parse(text) {
            Some(n) => CellValue::Number(n),
            None => CellValue::Text(from_chars(&v)),
        }
    } else {
        CellValue::Text(from_chars(&v))
    }
}

/// Whether `c` is a digit.
pub fn char_is_digit(c: char) -> (b: bool)
    ensures
        b == is_digit(c),
{
    let u: u32 = c as u32;
    0x30 <= u && u <= 0x39
}

/// The number of digits among the characters.
fn count_digits(v: &Vec<char>) -> (n: usize)
    ensures
        n == digit_count(v@),
{
    let mut n: usize = 0;
    let mut i: usize = 0;
    assert(v@.take(0) =~= Seq::<char>::empty());
    while i < v.len()
        invariant
            i <= v.len(),
            n <= i,
            n == digit_count(v@.take(i as int)),
        decreases v.len() - i,
    {
        proof {
            let part = v@.take(i as int + 1);
            assert(part.drop_last() =~= v@.take(i as int));
            assert(part.last() == v@[i as int]);
        }
        if char_is_digit(v[i]) {
            n = n + 1;
        }
        i = i + 1;
    }
    assert(v@.take(v.len() as int) =~= v@);
    n
}

fn chars_look_numeric(v: &Vec<char>) -> (b: bool)
    ensures
        b == looks_numeric(v@),
{
    let mut i: usize = 0;
    while i < v.len()
        invariant
            i <= v.len(),
            forall|k: int| 0 <= k < i ==> is_numeric_char(#[trigger] v@[k]),
        decreases v.len() - i,
    {
        let c: char = v[i];
        if !(char_is_digit(c) || c == '.' || c == '-' || c == '+') {
            return false;
        }
        i = i + 1;
    }
    true
}

fn chars_have_leading_zero(v: &Vec<char>) -> (b: bool)
    ensures
        b == has_leading_zero(v@),
{
    if v.len() <= 1 || v[0] != '0' {
        return false;
    }
    let mut i: usize = 0;
    while i < v.len()
        invariant
            i <= v.len(),
            forall|k: int| 0 <= k < i ==> v@[k] != '.',
        decreases v.len() - i,
    {
        if v[i] == '.' {
            assert(v@.contains('.'));
            return false;
        }
        i = i + 1;
    }
    true
}

/// Whether the characters from `from` up to `to` are all digits.
fn digits_between(v: &Vec<char>, from: usize, to: usize) -> (b: bool)
    requires
        from <= to <= v.len(),
    ensures
        b == all_digits(v@.subrange(from as int, to as int)),
{
    let ghost part = v@.subrange(from as int, to as int);
    let mut i: usize = from;
    while i < to
        invariant
            from <= i <= to <= v.len(),
            part == v@.subrange(from as int, to as int),
            forall|k: int| 0 <= k < i - from ==> is_digit(#[trigger] part[k]),
        decreases to - i,
    {
        if !char_is_digit(v[i]) {
            assert(!is_digit(part[i as int - from as int]));
            return false;
        }
        i = i + 1;
    }
    true
}

/// A text whose first `p` characters are no points has its first point at
/// `p` or behind, and exactly at `p` where a point stands there or the text
/// ends.
proof fn lemma_point_index(s: Seq<char>, p: int)
    requires
        0 <= p <= s.len(),
        forall|k: int| 0 <= k < p ==> #[trigger] s[k] != '.',
        p < s.len() ==> s[p] == '.',
    ensures
        point_index(s) == p,
    decreases p,
{
    if p > 0 {
        let t = s.drop_first();
        assert forall|k: int| 0 <= k < p - 1 implies #[trigger] t[k] != '.' by {
            assert(t[k] == s[k + 1]);
        }
        assert(s[0] != '.');
        lemma_point_index(t, p - 1);
    }
}

fn chars_are_canonical(v: &Vec<char>) -> (b: bool)
    ensures
        b == is_canonical_decimal(v@),
{
    let n: usize = v.len();
    let start: usize = if n > 0 && v[0] == '-' {
        1
    } else {
        0
    };
    let ghost body = unsigned_part(v@);
    assert(body =~= v@.skip(start as int));
    let mut p: usize = start;
    while p < n && v[p] != '.'
        invariant
            start <= p <= n,
            n == v.len(),
            body == v@.skip(start as int),
            forall|k: int| 0 <= k < p - start ==> #[trigger] body[k] != '.',
        decreases n - p,
    {
        p = p + 1;
    }
    proof {
        lemma_point_index(body, p as int - start as int);
        assert(integer_part(v@) =~= v@.subrange(start as int, p as int));
        if p < n {
            assert(fraction_part(v@) =~= v@.subrange(p as int + 1, n as int));
        }
    }
    if p == start {
        return false;
    }
    if !digits_between(v, start, p) {
        return false;
    }
    if p - start > 1 && v[start] == '0' {
        return false;
    }
    if p < n {
        if p + 1 == n {
            return false;
        }
        if !digits_between(v, p + 1, n) {
            return false;
        }
        if v[n - 1] == '0' {
            return false;
        }
    }
    true
}

} // verus!

//! The names of the sheets of a workbook.
//!
//! Every sheet is named after its file.  A workbook cannot hold two sheets of
//! the same name, so a sheet whose name a sheet before it has already gets a
//! number behind its name: the first of 2, 3, ... that gives a name which no
//! sheet before it has.  Every other sheet keeps its name as it is.
//!
//! Two names count as the same where they differ at most in the case of the
//! letters `a` to `z`.  The workbook writer also takes names for the same
//! that differ in the case of other letters; such names are left as they are,
//! and the writer refuses the workbook.

use vstd::prelude::*;
use crate::export::{is_forbidden_in_sheet_name, nat_text, push_nat, MAX_SHEET_NAME_LEN};
use crate::text::{from_chars, same_text, texts, to_chars};

verus! {

/// `c` as a small letter where it is one of the letters `A` to `Z`; else `c`.
pub open spec fn folded_char(c: char) -> char {
    if 0x41 <= c as u32 <= 0x5A {
        ((c as u32) + 32) as char
    } else {
        c
    }
}

/// `s` with the letters `A` to `Z` as small letters.
pub open spec fn folded(s: Seq<char>) -> Seq<char> {
    s.map_values(|c: char| folded_char(c))
}

/// Whether two names are the same, the case of the letters `a` to `z`
/// disregarded.
pub open spec fn same_name(a: Seq<char>, b: Seq<char>) -> bool {
    folded(a) == folded(b)
}

/// Whether one of the names `given` is the same as `name`.
pub open spec fn is_taken(given: Seq<Seq<char>>, name: Seq<char>) -> bool {
    exists|j: int| 0 <= j < given.len() && same_name(#[trigger] given[j], name)
}

/// What stands at the end of a name with the number `k`: a space and the
/// number in brackets.
pub open spec fn number_mark(k: nat) -> Seq<char> {
    seq![' ', '('] + nat_text(k) + seq![')']
}

/// How much of a name is kept before a mark of the length `mark_len`, so
/// that both fit into `MAX_SHEET_NAME_LEN` characters.
pub open spec fn room_before(mark_len: int) -> int {
    if mark_len < MAX_SHEET_NAME_LEN {
        MAX_SHEET_NAME_LEN - mark_len
    } else {
        0
    }
}

/// The name `base` with the number `k`: the name, cut where the mark would
/// not fit behind it, and the mark.
pub open spec fn numbered_name(base: Seq<char>, k: nat) -> Seq<char> {
    let mark = number_mark(k);
    let room = room_before(mark.len() as int);
    (if base.len() > room {
        base.take(room)
    } else {
        base
    }) + mark
}

/// The first of the numbers `k`, `k + 1`, ... with which `base` is a name
/// that is not taken; the number `k + tries` where all before it are taken.
pub open spec fn free_number(base: Seq<char>, given: Seq<Seq<char>>, k: nat, tries: nat) -> nat
    decreases tries,
{
    if tries == 0 || !is_taken(given, numbered_name(base, k)) {
        k
    } else {
        free_number(base, given, k + 1, (tries - 1) as nat)
    }
}

/// The name of a sheet that would be named `base`, behind sheets with the
/// names `given`: `base` itself where it is not taken, else `base` with the
/// first of the numbers 2, 3, ... that gives a name which is not taken.
/// Among as many numbers as there are names and one more, one gives such a
/// name, so no more are tried.
pub open spec fn next_name(base: Seq<char>, given: Seq<Seq<char>>) -> Seq<char> {
    if !is_taken(given, base) {
        base
    } else {
        numbered_name(base, free_number(base, given, 2, given.len()))
    }
}

/// The names of the sheets of a workbook whose sheets would be named
/// `bases`, in order.
pub open spec fn sheet_names(bases: Seq<Seq<char>>) -> Seq<Seq<char>>
    decreases bases.len(),
{
    if bases.len() == 0 {
        Seq::empty()
    } else {
        let before = sheet_names(bases.drop_last());
        before.push(next_name(bases.last(), before))
    }
}

/// A number in decimal notation has a digit, and digits only.
pub proof fn lemma_nat_text_digits(n: nat)
    ensures
        nat_text(n).len() >= 1,
        forall|i: int| 0 <= i < nat_text(n).len() ==> 0x30 <= (#[trigger] nat_text(n)[i]) as u32 <= 0x39,
    decreases n,
{
    if n >= 10 {
        lemma_nat_text_digits(n / 10);
        let head = nat_text(n / 10);
        assert forall|i: int| 0 <= i < nat_text(n).len() implies 0x30 <= (#[trigger] nat_text(
            n,
        )[i]) as u32 <= 0x39 by {
            if i < head.len() {
                assert(nat_text(n)[i] == head[i]);
            }
        }
    }
}

/// Two numbers with the same decimal notation are the same.
pub proof fn lemma_nat_text_injective(a: nat, b: nat)
    requires
        nat_text(a) == nat_text(b),
    ensures
        a == b,
    decreases a,
{
    lemma_nat_text_digits(a / 10);
    lemma_nat_text_digits(b / 10);
    if a < 10 && b < 10 {
        assert(nat_text(a)[0] == crate::export::digit_char(a as int));
        assert(nat_text(b)[0] == crate::export::digit_char(b as int));
        assert(crate::export::digit_char(a as int) as u32 == 0x30 + a);
        assert(crate::export::digit_char(b as int) as u32 == 0x30 + b);
    } else if a >= 10 && b >= 10 {
        let x = nat_text(a / 10);
        let y = nat_text(b / 10);
        let p = crate::export::digit_char((a % 10) as int);
        let q = crate::export::digit_char((b % 10) as int);
        assert(x.push(p) == y.push(q));
        assert(x =~= nat_text(a).drop_last());
        assert(y =~= nat_text(b).drop_last());
        lemma_nat_text_injective(a / 10, b / 10);
        assert(nat_text(a).last() == p);
        assert(nat_text(b).last() == q);
        assert(p as u32 == 0x30 + a % 10);
        assert(q as u32 == 0x30 + b % 10);
    } else if a < 10 {
        assert(nat_text(a).len() == 1);
        assert(nat_text(b).len() == nat_text(b / 10).len() + 1);
    } else {
        assert(nat_text(b).len() == 1);
        assert(nat_text(a).len() == nat_text(a / 10).len() + 1);
    }
}

/// A numbered name ends with its mark.
pub proof fn lemma_numbered_name_ends(base: Seq<char>, k: nat)
    ensures
        numbered_name(base, k).len() >= nat_text(k).len() + 3,
        numbered_name(base, k).last() == ')',
        forall|t: int|
            0 <= t < nat_text(k).len() ==> numbered_name(base, k)[numbered_name(base, k).len() - 1
                - nat_text(k).len() + t] == #[trigger] nat_text(k)[t],
        numbered_name(base, k)[numbered_name(base, k).len() - 2 - nat_text(k).len()] == '(',
{
    let d = nat_text(k);
    let dl = d.len() as int;
    let mark = number_mark(k);
    let n = numbered_name(base, k);
    let head = n.take(n.len() - mark.len());
    let hl = head.len() as int;
    assert(mark.len() == d.len() + 3);
    assert(n =~= head + mark);
    assert(mark[1] == '(');
    assert(mark[dl + 2] == ')');
    assert forall|t: int| 0 <= t < d.len() implies n[n.len() - 1 - d.len() + t] == #[trigger] d[t] by {
        assert(mark[2 + t] == d[t]);
        assert(n[hl + 2 + t] == mark[2 + t]);
    }
    assert(n[hl + 1] == mark[1]);
    assert(n[hl + dl + 2] == mark[dl + 2]);
}

/// Names with different numbers are not the same.
pub proof fn lemma_numbered_names_differ(a: Seq<char>, k: nat, b: Seq<char>, m: nat)
    requires
        k != m,
    ensures
        !same_name(numbered_name(a, k), numbered_name(b, m)),
{
    let x = numbered_name(a, k);
    let y = numbered_name(b, m);
    let d = nat_text(k);
    let e = nat_text(m);
    lemma_numbered_name_ends(a, k);
    lemma_numbered_name_ends(b, m);
    lemma_nat_text_digits(k);
    lemma_nat_text_digits(m);
    if folded(x) == folded(y) {
        assert(x.len() == folded(x).len());
        assert(y.len() == folded(y).len());
        let len = x.len() as int;
        let dl = d.len() as int;
        let el = e.len() as int;
        if dl < el {
            let t = el - dl - 1;
            let at = len - 2 - dl;
            assert(y[len - 1 - el + t] == e[t]);
            assert(x[at] == '(');
            assert(0x30 <= e[t] as u32 <= 0x39);
            assert(folded(x)[at] == folded_char(x[at]));
            assert(folded(y)[at] == folded_char(y[at]));
        } else if el < dl {
            let t = dl - el - 1;
            let at = len - 2 - el;
            assert(x[len - 1 - dl + t] == d[t]);
            assert(y[at] == '(');
            assert(0x30 <= d[t] as u32 <= 0x39);
            assert(folded(x)[at] == folded_char(x[at]));
            assert(folded(y)[at] == folded_char(y[at]));
        } else {
            assert forall|t: int| 0 <= t < dl implies d[t] == e[t] by {
                let at = len - 1 - dl + t;
                assert(x[at] == d[t]);
                assert(y[at] == e[t]);
                assert(0x30 <= d[t] as u32 <= 0x39);
                assert(0x30 <= e[t] as u32 <= 0x39);
                assert(folded(x)[at] == folded_char(x[at]));
                assert(folded(y)[at] == folded_char(y[at]));
            }
            assert(d =~= e);
            lemma_nat_text_injective(k, m);
        }
    }
}

/// The number that is found is one of those that were tried.
pub proof fn lemma_free_number_bounds(base: Seq<char>, given: Seq<Seq<char>>, k: nat, tries: nat)
    ensures
        k <= free_number(base, given, k, tries) <= k + tries,
    decreases tries,
{
    if !(tries == 0 || !is_taken(given, numbered_name(base, k))) {
        lemma_free_number_bounds(base, given, k + 1, (tries - 1) as nat);
    }
}

/// The number that is found depends on the given names only by which of
/// the numbered names they take.
pub proof fn lemma_free_number_agrees(
    base: Seq<char>,
    given: Seq<Seq<char>>,
    other: Seq<Seq<char>>,
    k: nat,
    tries: nat,
)
    requires
        forall|m: nat|
            m >= k ==> is_taken(given, #[trigger] numbered_name(base, m)) == is_taken(
                other,
                numbered_name(base, m),
            ),
    ensures
        free_number(base, given, k, tries) == free_number(base, other, k, tries),
    decreases tries,
{
    assert(is_taken(given, numbered_name(base, k)) == is_taken(other, numbered_name(base, k)));
    if !(tries == 0 || !is_taken(given, numbered_name(base, k))) {
        lemma_free_number_agrees(base, given, other, k + 1, (tries - 1) as nat);
    }
}

/// With at least as many tries as there are names, the numbered name that
/// is found is not taken: each name takes at most one of the numbered names.
pub proof fn lemma_free_number_is_free(base: Seq<char>, given: Seq<Seq<char>>, k: nat, tries: nat)
    requires
        tries >= given.len(),
    ensures
        !is_taken(given, numbered_name(base, free_number(base, given, k, tries))),
    decreases tries,
{
    let first = numbered_name(base, k);
    if is_taken(given, first) {
        let j = choose|j: int| 0 <= j < given.len() && same_name(#[trigger] given[j], first);
        let rest = given.remove(j);
        assert forall|m: nat| m > k implies is_taken(given, #[trigger] numbered_name(base, m))
            == is_taken(rest, numbered_name(base, m)) by {
            let name = numbered_name(base, m);
            lemma_numbered_names_differ(base, k, base, m);
            if is_taken(given, name) {
                let i = choose|i: int| 0 <= i < given.len() && same_name(#[trigger] given[i], name);
                if i < j {
                    assert(rest[i] == given[i]);
                } else {
                    assert(i > j);
                    assert(rest[i - 1] == given[i]);
                }
            }
            if is_taken(rest, name) {
                let i = choose|i: int| 0 <= i < rest.len() && same_name(#[trigger] rest[i], name);
                if i < j {
                    assert(given[i] == rest[i]);
                } else {
                    assert(given[i + 1] == rest[i]);
                }
            }
        }
        lemma_free_number_agrees(base, given, rest, k + 1, (tries - 1) as nat);
        lemma_free_number_is_free(base, rest, k + 1, (tries - 1) as nat);
        lemma_free_number_bounds(base, rest, k + 1, (tries - 1) as nat);
        let found = free_number(base, rest, k + 1, (tries - 1) as nat);
        assert(found > k);
        assert(is_taken(given, numbered_name(base, found)) == is_taken(
            rest,
            numbered_name(base, found),
        ));
    }
}

/// The name of a sheet is not the name of a sheet before it.
pub proof fn lemma_next_name_is_free(base: Seq<char>, given: Seq<Seq<char>>)
    ensures
        !is_taken(given, next_name(base, given)),
{
    if is_taken(given, base) {
        lemma_free_number_is_free(base, given, 2, given.len());
    }
}

/// The names of the sheets, one by one: there is a name for each sheet, and
/// the name of the sheet at `i` is made from the names of the sheets before
/// it.
pub proof fn lemma_sheet_names_at(bases: Seq<Seq<char>>, i: int)
    requires
        0 <= i < bases.len(),
    ensures
        sheet_names(bases).len() == bases.len(),
        sheet_names(bases).take(i) == sheet_names(bases.take(i)),
        sheet_names(bases)[i] == next_name(bases[i], sheet_names(bases.take(i))),
    decreases bases.len(),
{
    let head = bases.drop_last();
    lemma_sheet_names_len(bases);
    lemma_sheet_names_len(head);
    if i == bases.len() - 1 {
        assert(bases.take(i) =~= head);
        assert(sheet_names(bases).take(i) =~= sheet_names(head));
    } else {
        lemma_sheet_names_at(head, i);
        assert(head.take(i) =~= bases.take(i));
        assert(sheet_names(bases).take(i) =~= sheet_names(head).take(i));
    }
}

/// There is a name for each sheet.
pub proof fn lemma_sheet_names_len(bases: Seq<Seq<char>>)
    ensures
        sheet_names(bases).len() == bases.len(),
    decreases bases.len(),
{
    if bases.len() > 0 {
        lemma_sheet_names_len(bases.drop_last());
    }
}

/// A sheet keeps its name unless a sheet before it has that name already.
pub proof fn law_sheet_names_keep_free_names(bases: Seq<Seq<char>>, i: int)
    requires
        0 <= i < bases.len(),
        forall|j: int| 0 <= j < i ==> !same_name(#[trigger] sheet_names(bases)[j], bases[i]),
    ensures
        sheet_names(bases)[i] == bases[i],
{
    lemma_sheet_names_at(bases, i);
    let given = sheet_names(bases.take(i));
    if is_taken(given, bases[i]) {
        let j = choose|j: int| 0 <= j < given.len() && same_name(#[trigger] given[j], bases[i]);
        assert(given[j] == sheet_names(bases).take(i)[j]);
        assert(same_name(sheet_names(bases)[j], bases[i]));
    }
}

/// A sheet whose name a sheet before it has already gets that name with a
/// number from 2 on.
pub proof fn law_taken_names_are_numbered(bases: Seq<Seq<char>>, i: int)
    requires
        0 <= i < bases.len(),
        exists|j: int| 0 <= j < i && same_name(#[trigger] sheet_names(bases)[j], bases[i]),
    ensures
        exists|k: nat| 2 <= k <= i + 2 && sheet_names(bases)[i] == #[trigger] numbered_name(bases[i], k),
{
    lemma_sheet_names_at(bases, i);
    lemma_sheet_names_len(bases.take(i));
    let given = sheet_names(bases.take(i));
    let j = choose|j: int| 0 <= j < i && same_name(#[trigger] sheet_names(bases)[j], bases[i]);
    assert(given[j] == sheet_names(bases).take(i)[j]);
    assert(same_name(given[j], bases[i]));
    lemma_free_number_bounds(bases[i], given, 2, given.len());
    let k = free_number(bases[i], given, 2, given.len());
    assert(sheet_names(bases)[i] == numbered_name(bases[i], k));
}

/// No two sheets of a workbook have the same name, whatever the case of the
/// letters `a` to `z` in it.
pub proof fn law_sheet_names_differ(bases: Seq<Seq<char>>, i: int, j: int)
    requires
        0 <= i < bases.len(),
        0 <= j < bases.len(),
        i != j,
    ensures
        !same_name(sheet_names(bases)[i], sheet_names(bases)[j]),
        sheet_names(bases)[i] != sheet_names(bases)[j],
{
    let names = sheet_names(bases);
    let (lo, hi) = if i < j {
        (i, j)
    } else {
        (j, i)
    };
    lemma_sheet_names_at(bases, hi);
    lemma_sheet_names_len(bases.take(hi));
    let given = sheet_names(bases.take(hi));
    lemma_next_name_is_free(bases[hi], given);
    assert(given[lo] == names.take(hi)[lo]);
    assert(!same_name(given[lo], names[hi]));
}

/// Ten to the power of `d`.
pub open spec fn power_of_ten(d: nat) -> nat
    decreases d,
{
    if d == 0 {
        1
    } else {
        10 * power_of_ten((d - 1) as nat)
    }
}

/// A number below ten to the power of `d` has at most `d` digits.
pub proof fn lemma_nat_text_len(n: nat, d: nat)
    requires
        d >= 1,
        n < power_of_ten(d),
    ensures
        nat_text(n).len() <= d,
    decreases d,
{
    if n >= 10 {
        assert(power_of_ten(1) == 10) by {
            assert(power_of_ten(0) == 1);
        }
        lemma_nat_text_len(n / 10, (d - 1) as nat);
    }
}

/// A numbered name is a name that a sheet can have, where the name that it
/// is made from holds no forbidden character and the number has at most
/// twenty digits: it is not empty, has at most `MAX_SHEET_NAME_LEN`
/// characters and holds no forbidden one.
pub proof fn law_numbered_name_is_valid(base: Seq<char>, k: nat)
    requires
        k < power_of_ten(20),
        forall|i: int| 0 <= i < base.len() ==> !is_forbidden_in_sheet_name(#[trigger] base[i]),
    ensures
        0 < numbered_name(base, k).len() <= MAX_SHEET_NAME_LEN,
        forall|i: int|
            0 <= i < numbered_name(base, k).len() ==> !is_forbidden_in_sheet_name(
                #[trigger] numbered_name(base, k)[i],
            ),
{
    lemma_nat_text_len(k, 20);
    lemma_nat_text_digits(k);
    let d = nat_text(k);
    let mark = number_mark(k);
    let n = numbered_name(base, k);
    let room = room_before(mark.len() as int);
    let head = if base.len() > room {
        base.take(room)
    } else {
        base
    };
    assert(mark.len() == d.len() + 3);
    assert(n == head + mark);
    assert forall|i: int| 0 <= i < n.len() implies !is_forbidden_in_sheet_name(#[trigger] n[i]) by {
        if i < head.len() {
            assert(n[i] == base[i]);
        } else {
            let q = i - head.len();
            assert(n[i] == mark[q]);
            if 2 <= q < d.len() + 2 {
                assert(mark[q] == d[q - 2]);
                assert(0x30 <= d[q - 2] as u32 <= 0x39);
            }
        }
    }
}

/// The names of the sheets of a workbook are names that sheets can have,
/// where the names that they are made from are and the sheets can be counted
/// in 64 bits.
pub proof fn law_sheet_names_are_valid(bases: Seq<Seq<char>>, i: int)
    requires
        0 <= i < bases.len() <= u64::MAX,
        0 < bases[i].len() <= MAX_SHEET_NAME_LEN,
        forall|c: int| 0 <= c < bases[i].len() ==> !is_forbidden_in_sheet_name(#[trigger] bases[i][c]),
    ensures
        0 < sheet_names(bases)[i].len() <= MAX_SHEET_NAME_LEN,
        forall|c: int|
            0 <= c < sheet_names(bases)[i].len() ==> !is_forbidden_in_sheet_name(
                #[trigger] sheet_names(bases)[i][c],
            ),
{
    lemma_sheet_names_at(bases, i);
    lemma_sheet_names_len(bases.take(i));
    let given = sheet_names(bases.take(i));
    if is_taken(given, bases[i]) {
        let k = free_number(bases[i], given, 2, given.len());
        lemma_free_number_bounds(bases[i], given, 2, given.len());
        reveal_with_fuel(power_of_ten, 21);
        assert(power_of_ten(20) == 100000000000000000000nat);
        law_numbered_name_is_valid(bases[i], k);
    }
}

/// Writes a name with the letters `A` to `Z` as small letters.
pub fn fold_name(name: &str) -> (r: String)
    ensures
        r@ == folded(name@),
{
    let v: Vec<char> = to_chars(name);
    let mut out: Vec<char> = Vec::new();
    let mut i: usize = 0;
    while i < v.len()
        invariant
            i <= v.len(),
            out@.len() == i,
            forall|k: int| 0 <= k < i ==> #[trigger] out@[k] == folded_char(v@[k]),
        decreases v.len() - i,
    {
        let c: char = v[i];
        let u: u32 = c as u32;
        if 0x41 <= u && u <= 0x5A {
            let small: u8 = (u + 32) as u8;
            out.push(small as char);
        } else {
            out.push(c);
        }
        i = i + 1;
    }
    assert(out@ =~= folded(v@));
    from_chars(&out)
}

/// Whether one of the names is the same as `name`.  `folded_names` holds
/// the names with small letters.
fn name_is_taken(names: &Vec<String>, folded_names: &Vec<String>, name: &str) -> (b: bool)
    requires
        folded_names@.len() == names@.len(),
        forall|k: int| 0 <= k < names@.len() ==> (#[trigger] folded_names@[k])@ == folded(names@[k]@),
    ensures
        b == is_taken(texts(names@), name@),
{
    let ghost given = texts(names@);
    let wanted: String = fold_name(name);
    let mut j: usize = 0;
    while j < folded_names.len()
        invariant
            j <= folded_names.len(),
            given == texts(names@),
            wanted@ == folded(name@),
            folded_names@.len() == names@.len(),
            forall|k: int|
                0 <= k < names@.len() ==> (#[trigger] folded_names@[k])@ == folded(names@[k]@),
            forall|k: int| 0 <= k < j ==> !same_name(#[trigger] given[k], name@),
        decreases folded_names.len() - j,
    {
        if same_text(folded_names[j].as_str(), wanted.as_str()) {
            assert(same_name(given[j as int], name@));
            return true;
        }
        j = j + 1;
    }
    false
}

/// Writes a name with a number.
pub fn number_name(base: &str, k: u128) -> (r: String)
    ensures
        r@ == numbered_name(base@, k as nat),
{
    let mut mark: String = String::new();
    mark.push(' ');
    mark.push('(');
    push_nat(&mut mark, k);
    mark.push(')');
    assert(mark@ =~= number_mark(k as nat));
    let mark_len: usize = to_chars(mark.as_str()).len();
    let room: usize = if mark_len < MAX_SHEET_NAME_LEN {
        MAX_SHEET_NAME_LEN - mark_len
    } else {
        0
    };
    let v: Vec<char> = to_chars(base);
    let mut r: String = if v.len() > room {
        let mut head: Vec<char> = Vec::new();
        let mut j: usize = 0;
        while j < room
            invariant
                j <= room < v.len(),
                head@ == v@.take(j as int),
            decreases room - j,
        {
            head.push(v[j]);
            j = j + 1;
            assert(v@.take(j as int) =~= v@.take(j as int - 1).push(v@[j as int - 1]));
        }
        from_chars(&head)
    } else {
        from_chars(&v)
    };
    r.append(mark.as_str());
    r
}

/// Names a sheet that would be named `base`, behind sheets with the names
/// `names`.  `folded_names` holds those names with small letters.
fn pick_name(base: &str, names: &Vec<String>, folded_names: &Vec<String>) -> (r: String)
    requires
        folded_names@.len() == names@.len(),
        forall|k: int| 0 <= k < names@.len() ==> (#[trigger] folded_names@[k])@ == folded(names@[k]@),
    ensures
        r@ == next_name(base@, texts(names@)),
{
    let ghost given = texts(names@);
    if !name_is_taken(names, folded_names, base) {
        return base.to_owned();
    }
    let mut k: u128 = 2;
    let mut tries: usize = names.len();
    loop
        invariant
            given == texts(names@),
            is_taken(given, base@),
            tries <= names@.len() <= usize::MAX,
            k == 2 + (names@.len() - tries),
            folded_names@.len() == names@.len(),
            forall|i: int|
                0 <= i < names@.len() ==> (#[trigger] folded_names@[i])@ == folded(names@[i]@),
            free_number(base@, given, 2, given.len()) == free_number(
                base@,
                given,
                k as nat,
                tries as nat,
            ),
        decreases tries,
    {
        let name: String = number_name(base, k);
        if tries == 0 || !name_is_taken(names, folded_names, name.as_str()) {
            assert(free_number(base@, given, k as nat, tries as nat) == k);
            return name;
        }
        assert(free_number(base@, given, k as nat, tries as nat) == free_number(
            base@,
            given,
            (k + 1) as nat,
            (tries - 1) as nat,
        ));
        assert(k <= 2 + usize::MAX);
        k = k + 1;
        tries = tries - 1;
    }
}

/// Names the sheets of a workbook whose sheets would be named `bases`.
pub fn distinct_names(bases: &Vec<String>) -> (names: Vec<String>)
    ensures
        texts(names@) == sheet_names(texts(bases@)),
{
    let ghost all = texts(bases@);
    let mut names: Vec<String> = Vec::new();
    let mut folded_names: Vec<String> = Vec::new();
    let mut n: usize = 0;
    assert(all.take(0) =~= Seq::<Seq<char>>::empty());
    assert(texts(names@) =~= sheet_names(all.take(0)));
    while n < bases.len()
        invariant
            n <= bases.len(),
            all == texts(bases@),
            names@.len() == n,
            texts(names@) == sheet_names(all.take(n as int)),
            folded_names@.len() == names@.len(),
            forall|k: int|
                0 <= k < names@.len() ==> (#[trigger] folded_names@[k])@ == folded(names@[k]@),
        decreases bases.len() - n,
    {
        proof {
            let part = all.take(n as int + 1);
            assert(part.drop_last() =~= all.take(n as int));
            assert(part.last() == bases@[n as int]@);
        }
        let ghost before = texts(names@);
        let name: String = pick_name(bases[n].as_str(), &names, &folded_names);
        let low: String = fold_name(name.as_str());
        names.push(name);
        folded_names.push(low);
        assert(texts(names@) =~= before.push(names@[n as int]@));
        n = n + 1;
    }
    assert(all.take(bases.len() as int) =~= all);
    names
}

} // verus!

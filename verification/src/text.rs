//! Characters and strings: the character classes that cleaning and trimming
//! go by, and conversions between `String` and `Vec<char>`.
//!
//! The functions of this crate read text as a sequence of Unicode scalar
//! values (`Seq<char>`), which is the view of `str` and `String`.

use vstd::prelude::*;

verus! {

/// What is taken on trust of `String::push` of the standard library: it
/// appends the character to the end of the string.
pub assume_specification[ String::push ](s: &mut String, ch: char)
    ensures
        final(s)@ == old(s)@.push(ch),
;

/// The characters of `s`, in order.
pub fn to_chars(s: &str) -> (v: Vec<char>)
    ensures
        v@ == s@,
{
    let mut v: Vec<char> = Vec::new();
    let n: usize = s.unicode_len();
    let mut i: usize = 0;
    while i < n
        invariant
            n == s@.len(),
            i <= n,
            v@ == s@.take(i as int),
        decreases n - i,
    {
        let c: char = s.get_char(i);
        v.push(c);
        i = i + 1;
        assert(s@.take(i as int) =~= s@.take(i as int - 1).push(c));
    }
    assert(s@.take(n as int) =~= s@);
    v
}

/// The string made of the characters of `v`, in order.
pub fn from_chars(v: &Vec<char>) -> (s: String)
    ensures
        s@ == v@,
{
    let mut s: String = String::new();
    let mut i: usize = 0;
    while i < v.len()
        invariant
            i <= v.len(),
            s@ == v@.take(i as int),
        decreases v.len() - i,
    {
        s.push(v[i]);
        i = i + 1;
        assert(v@.take(i as int) =~= v@.take(i as int - 1).push(v@[i as int - 1]));
    }
    assert(v@.take(v.len() as int) =~= v@);
    s
}

/// Whether two strings hold the same text.
pub fn same_text(a: &str, b: &str) -> (r: bool)
    ensures
        r == (a@ == b@),
{
    let x: Vec<char> = to_chars(a);
    let y: Vec<char> = to_chars(b);
    if x.len() != y.len() {
        return false;
    }
    let mut i: usize = 0;
    while i < x.len()
        invariant
            i <= x.len(),
            x.len() == y.len(),
            x@ == a@,
            y@ == b@,
            forall|k: int| 0 <= k < i ==> x@[k] == y@[k],
        decreases x.len() - i,
    {
        if x[i] != y[i] {
            return false;
        }
        i = i + 1;
    }
    assert(x@ =~= y@);
    true
}

/// Control characters: the code points U+0000 to U+001F and U+007F to U+009F.
pub open spec fn is_control(c: char) -> bool {
    c as u32 <= 0x1F || (0x7F <= c as u32 <= 0x9F)
}

/// White space as Unicode defines it (25 code points).
pub open spec fn is_whitespace(c: char) -> bool {
    let u = c as u32;
    (0x09 <= u <= 0x0D) || u == 0x20 || u == 0x85 || u == 0xA0 || u == 0x1680 || (0x2000 <= u
        <= 0x200A) || u == 0x2028 || u == 0x2029 || u == 0x202F || u == 0x205F || u == 0x3000
}

/// Whether `c` is a control character.
pub fn char_is_control(c: char) -> (b: bool)
    ensures
        b == is_control(c),
{
    let u: u32 = c as u32;
    u <= 0x1F || (0x7F <= u && u <= 0x9F)
}

/// Whether `c` is white space.
pub fn char_is_whitespace(c: char) -> (b: bool)
    ensures
        b == is_whitespace(c),
{
    let u: u32 = c as u32;
    (0x09 <= u && u <= 0x0D) || u == 0x20 || u == 0x85 || u == 0xA0 || u == 0x1680 || (0x2000 <= u
        && u <= 0x200A) || u == 0x2028 || u == 0x2029 || u == 0x202F || u == 0x205F || u == 0x3000
}

/// Characters that cleaning removes wherever they stand: NUL, the byte-order
/// mark, and the zero-width space, non-joiner and joiner.
pub open spec fn is_invisible(c: char) -> bool {
    c == '\u{0}' || c == '\u{FEFF}' || c == '\u{200B}' || c == '\u{200C}' || c == '\u{200D}'
}

/// A character that cleaning keeps: not invisible, and no control character
/// other than white space (tab, line feed, ...).
pub open spec fn is_kept(c: char) -> bool {
    !is_invisible(c) && (!is_control(c) || is_whitespace(c))
}

/// Whether cleaning keeps `c`.
pub fn char_is_kept(c: char) -> (b: bool)
    ensures
        b == is_kept(c),
{
    let invisible: bool = c == '\u{0}' || c == '\u{FEFF}' || c == '\u{200B}' || c == '\u{200C}'
        || c == '\u{200D}';
    !invisible && (!char_is_control(c) || char_is_whitespace(c))
}

/// `s` without its leading white space.
pub open spec fn trim_start(s: Seq<char>) -> Seq<char>
    decreases s.len(),
{
    if s.len() > 0 && is_whitespace(s.first()) {
        trim_start(s.drop_first())
    } else {
        s
    }
}

/// `s` without its trailing white space.
pub open spec fn trim_end(s: Seq<char>) -> Seq<char>
    decreases s.len(),
{
    if s.len() > 0 && is_whitespace(s.last()) {
        trim_end(s.drop_last())
    } else {
        s
    }
}

/// `s` without the white space at either end.
pub open spec fn trimmed(s: Seq<char>) -> Seq<char> {
    trim_end(trim_start(s))
}

/// The cleaned form of a key or of a string value: the kept characters of
/// `s`, in order, without the white space at either end.
pub open spec fn cleaned(s: Seq<char>) -> Seq<char> {
    trimmed(s.filter(|c: char| is_kept(c)))
}

/// Trimming gives a contiguous piece of the text that neither starts nor
/// ends with white space, and everything it leaves out is white space.
pub proof fn law_trim_keeps_core(s: Seq<char>)
    ensures
        exists|a: int, b: int|
            {
                &&& 0 <= a <= b <= s.len()
                &&& #[trigger] s.subrange(a, b) == trimmed(s)
                &&& forall|k: int| 0 <= k < a ==> is_whitespace(#[trigger] s[k])
                &&& forall|k: int| b <= k < s.len() ==> is_whitespace(#[trigger] s[k])
            },
        trimmed(s).len() > 0 ==> !is_whitespace(trimmed(s).first()) && !is_whitespace(
            trimmed(s).last(),
        ),
{
    let a = lemma_trim_start_index(s);
    let t = s.skip(a);
    let b = lemma_trim_end_index(t);
    assert(t.take(b) =~= s.subrange(a, a + b));
    assert forall|k: int| a + b <= k < s.len() implies is_whitespace(#[trigger] s[k]) by {
        assert(s[k] == t[k - a]);
    }
    if b > 0 {
        assert(t.take(b).first() == t[0]);
    }
}

/// Cleaning a cleaned text changes nothing.
pub proof fn law_cleaning_is_idempotent(s: Seq<char>)
    ensures
        cleaned(cleaned(s)) == cleaned(s),
{
    let pred = |c: char| is_kept(c);
    let kept = s.filter(pred);
    let once = cleaned(s);
    law_trim_keeps_core(kept);
    let (a, b) = choose|a: int, b: int|
        {
            &&& 0 <= a <= b <= kept.len()
            &&& #[trigger] kept.subrange(a, b) == trimmed(kept)
            &&& forall|k: int| 0 <= k < a ==> is_whitespace(#[trigger] kept[k])
            &&& forall|k: int| b <= k < kept.len() ==> is_whitespace(#[trigger] kept[k])
        };
    assert forall|i: int| 0 <= i < once.len() implies pred(#[trigger] once[i]) by {
        assert(once[i] == kept[a + i]);
        s.lemma_filter_pred(pred, a + i);
    }
    crate::sequences::lemma_filter_all(once, pred);
    assert(once.filter(pred) == once);
    assert(trim_start(once) == once);
    assert(trim_end(once) == once);
}

/// Where the text without its leading white space begins.
proof fn lemma_trim_start_index(s: Seq<char>) -> (a: int)
    ensures
        0 <= a <= s.len(),
        trim_start(s) == s.skip(a),
        forall|k: int| 0 <= k < a ==> is_whitespace(#[trigger] s[k]),
        a < s.len() ==> !is_whitespace(s[a]),
    decreases s.len(),
{
    if s.len() > 0 && is_whitespace(s.first()) {
        let r = lemma_trim_start_index(s.drop_first());
        assert(s.drop_first().skip(r) =~= s.skip(r + 1));
        assert forall|k: int| 0 <= k < r + 1 implies is_whitespace(#[trigger] s[k]) by {
            if k > 0 {
                assert(s[k] == s.drop_first()[k - 1]);
            }
        }
        r + 1
    } else {
        assert(s.skip(0) =~= s);
        0
    }
}

/// Where the text without its trailing white space ends.
proof fn lemma_trim_end_index(s: Seq<char>) -> (b: int)
    ensures
        0 <= b <= s.len(),
        trim_end(s) == s.take(b),
        forall|k: int| b <= k < s.len() ==> is_whitespace(#[trigger] s[k]),
        b > 0 ==> !is_whitespace(s[b - 1]),
    decreases s.len(),
{
    if s.len() > 0 && is_whitespace(s.last()) {
        let r = lemma_trim_end_index(s.drop_last());
        assert(s.drop_last().take(r) =~= s.take(r));
        assert forall|k: int| r <= k < s.len() implies is_whitespace(#[trigger] s[k]) by {
            if k < s.len() - 1 {
                assert(s[k] == s.drop_last()[k]);
            }
        }
        r
    } else {
        assert(s.take(s.len() as int) =~= s);
        s.len() as int
    }
}

/// The characters of `v` without the white space at either end.
pub fn trim_chars(v: &Vec<char>) -> (r: Vec<char>)
    ensures
        r@ == trimmed(v@),
{
    let n: usize = v.len();
    let mut a: usize = 0;
    assert(v@.skip(0) =~= v@);
    while a < n && char_is_whitespace(v[a])
        invariant
            n == v.len(),
            a <= n,
            trim_start(v@) == trim_start(v@.skip(a as int)),
        decreases n - a,
    {
        assert(v@.skip(a as int).drop_first() =~= v@.skip(a as int + 1));
        a = a + 1;
    }
    let mut b: usize = n;
    assert(v@.skip(a as int) =~= v@.subrange(a as int, n as int));
    while b > a && char_is_whitespace(v[b - 1])
        invariant
            n == v.len(),
            a <= b <= n,
            trimmed(v@) == trim_end(v@.subrange(a as int, b as int)),
        decreases b - a,
    {
        assert(v@.subrange(a as int, b as int).drop_last() =~= v@.subrange(a as int, b as int - 1));
        b = b - 1;
    }
    let mut r: Vec<char> = Vec::new();
    let mut i: usize = a;
    while i < b
        invariant
            a <= i <= b <= n,
            n == v.len(),
            r@ == v@.subrange(a as int, i as int),
        decreases b - i,
    {
        r.push(v[i]);
        i = i + 1;
        assert(v@.subrange(a as int, i as int) =~= v@.subrange(a as int, i as int - 1).push(
            v@[i as int - 1],
        ));
    }
    r
}

/// The kept characters of `v`, in order.
pub fn keep_chars(v: &Vec<char>) -> (r: Vec<char>)
    ensures
        r@ == v@.filter(|c: char| is_kept(c)),
{
    let ghost pred = |c: char| is_kept(c);
    let mut r: Vec<char> = Vec::new();
    let mut i: usize = 0;
    proof {
        reveal(Seq::filter);
        assert(v@.take(0) =~= Seq::<char>::empty());
    }
    while i < v.len()
        invariant
            i <= v.len(),
            r@ == v@.take(i as int).filter(pred),
            pred == |c: char| is_kept(c),
        decreases v.len() - i,
    {
        let c: char = v[i];
        proof {
            reveal(Seq::filter);
            assert(v@.take(i as int + 1).drop_last() =~= v@.take(i as int));
            assert(pred(c) == is_kept(c));
        }
        if char_is_kept(c) {
            r.push(c);
        }
        i = i + 1;
    }
    assert(v@.take(v.len() as int) =~= v@);
    r
}

/// Cleans a key or a string value: drops the characters that are not kept,
/// then trims white space at both ends.
pub fn clean_text(s: &str) -> (r: String)
    ensures
        r@ == cleaned(s@),
{
    let chars: Vec<char> = to_chars(s);
    let kept: Vec<char> = keep_chars(&chars);
    let core: Vec<char> = trim_chars(&kept);
    from_chars(&core)
}

/// The texts of a list of strings.
pub open spec fn texts(v: Seq<String>) -> Seq<Seq<char>> {
    v.map_values(|s: String| s@)
}

/// `needle` stands in `hay` at position `i`.
pub open spec fn occurs_at(hay: Seq<char>, needle: Seq<char>, i: int) -> bool {
    0 <= i && i + needle.len() <= hay.len() && hay.subrange(i, i + needle.len()) == needle
}

/// `needle` is a substring of `hay`.  The empty text is a substring of every text.
pub open spec fn contains_text(hay: Seq<char>, needle: Seq<char>) -> bool {
    exists|i: int| occurs_at(hay, needle, i)
}

/// Whether `needle` stands in `hay` at position `i`.
pub fn matches_at(hay: &Vec<char>, needle: &Vec<char>, i: usize) -> (b: bool)
    requires
        i + needle.len() <= hay.len(),
    ensures
        b == occurs_at(hay@, needle@, i as int),
{
    let ghost window = hay@.subrange(i as int, i as int + needle.len() as int);
    let mut j: usize = 0;
    while j < needle.len()
        invariant
            j <= needle.len(),
            i + needle.len() <= hay.len(),
            window == hay@.subrange(i as int, i as int + needle.len() as int),
            forall|k: int| 0 <= k < j ==> window[k] == needle@[k],
        decreases needle.len() - j,
    {
        if hay[i + j] != needle[j] {
            assert(window[j as int] != needle@[j as int]);
            return false;
        }
        j = j + 1;
    }
    assert(window =~= needle@);
    true
}

/// Whether `needle` is a substring of `hay`.
pub fn chars_contain(hay: &Vec<char>, needle: &Vec<char>) -> (b: bool)
    ensures
        b == contains_text(hay@, needle@),
{
    if needle.len() == 0 {
        assert(occurs_at(hay@, needle@, 0)) by {
            assert(hay@.subrange(0, 0) =~= needle@);
        }
        return true;
    }
    if needle.len() > hay.len() {
        return false;
    }
    let last: usize = hay.len() - needle.len();
    let mut i: usize = 0;
    while i <= last
        invariant
            last == hay.len() - needle.len(),
            0 < needle.len() <= hay.len(),
            i <= last + 1,
            forall|k: int| 0 <= k < i ==> !occurs_at(hay@, needle@, k),
        decreases last + 1 - i,
    {
        if matches_at(hay, needle, i) {
            return true;
        }
        i = i + 1;
    }
    false
}

/// Whether `needle` is a substring of `hay`.
pub fn str_contains(hay: &str, needle: &str) -> (b: bool)
    ensures
        b == contains_text(hay@, needle@),
{
    let h: Vec<char> = to_chars(hay);
    let n: Vec<char> = to_chars(needle);
    chars_contain(&h, &n)
}

/// The length of the run of characters other than white space that `s` begins with.
pub open spec fn word_len(s: Seq<char>) -> nat
    decreases s.len(),
{
    if s.len() > 0 && !is_whitespace(s.first()) {
        1 + word_len(s.drop_first())
    } else {
        0
    }
}

/// The words of `s`: its maximal runs of characters other than white space,
/// from left to right.
pub open spec fn tokens(s: Seq<char>) -> Seq<Seq<char>>
    decreases s.len(),
    via tokens_decreases
{
    if s.len() == 0 {
        Seq::empty()
    } else if is_whitespace(s.first()) {
        tokens(s.drop_first())
    } else {
        seq![s.take(word_len(s) as int)] + tokens(s.skip(word_len(s) as int))
    }
}

#[via_fn]
proof fn tokens_decreases(s: Seq<char>) {
    lemma_word_len_run(s);
}

/// The first word ends inside the text, and a word is made of characters
/// other than white space and ends at white space or at the end.
pub proof fn lemma_word_len_run(s: Seq<char>)
    ensures
        word_len(s) <= s.len(),
        s.len() > 0 && !is_whitespace(s.first()) ==> word_len(s) >= 1,
        forall|k: int| 0 <= k < word_len(s) ==> !is_whitespace(#[trigger] s[k]),
        word_len(s) < s.len() ==> is_whitespace(s[word_len(s) as int]),
    decreases s.len(),
{
    if s.len() > 0 && !is_whitespace(s.first()) {
        let t = s.drop_first();
        lemma_word_len_run(t);
        assert forall|k: int| 0 <= k < word_len(s) implies !is_whitespace(#[trigger] s[k]) by {
            if k > 0 {
                assert(s[k] == t[k - 1]);
            }
        }
        if word_len(s) < s.len() {
            assert(s[word_len(s) as int] == t[word_len(t) as int]);
        }
    }
}

/// A run of `k` characters other than white space at the start of `s` is part
/// of its first word.
proof fn lemma_word_len_from_run(s: Seq<char>, k: int)
    requires
        0 <= k <= s.len(),
        forall|j: int| 0 <= j < k ==> !is_whitespace(#[trigger] s[j]),
    ensures
        word_len(s) == k + word_len(s.skip(k)),
    decreases k,
{
    if k == 0 {
        assert(s.skip(0) =~= s);
    } else {
        let t = s.drop_first();
        assert forall|j: int| 0 <= j < k - 1 implies !is_whitespace(#[trigger] t[j]) by {
            assert(t[j] == s[j + 1]);
        }
        lemma_word_len_from_run(t, k - 1);
        assert(t.skip(k - 1) =~= s.skip(k));
        assert(!is_whitespace(s[0]));
    }
}

/// A word: a text that is not empty and holds no white space.
pub open spec fn is_word(w: Seq<char>) -> bool {
    w.len() > 0 && forall|k: int| 0 <= k < w.len() ==> !is_whitespace(#[trigger] w[k])
}

/// Every token is a word: none is empty and none holds white space.
pub proof fn law_tokens_are_words(s: Seq<char>)
    ensures
        forall|i: int| 0 <= i < tokens(s).len() ==> is_word(#[trigger] tokens(s)[i]),
    decreases s.len(),
{
    if s.len() == 0 {
        assert(tokens(s).len() == 0);
    } else if is_whitespace(s.first()) {
        law_tokens_are_words(s.drop_first());
        assert(tokens(s) == tokens(s.drop_first()));
    } else {
        lemma_word_len_run(s);
        let n = word_len(s) as int;
        law_tokens_are_words(s.skip(n));
        let head = s.take(n);
        let rest = tokens(s.skip(n));
        assert(tokens(s) == seq![head] + rest);
        assert(is_word(head)) by {
            assert forall|k: int| 0 <= k < head.len() implies !is_whitespace(#[trigger] head[k]) by {
                assert(head[k] == s[k]);
            }
        }
        assert forall|i: int| 0 <= i < tokens(s).len() implies is_word(#[trigger] tokens(s)[i]) by {
            if i == 0 {
                assert(tokens(s)[0] == head);
            } else {
                assert(tokens(s)[i] == rest[i - 1]);
            }
        }
    }
}

/// A text has no words exactly when it is made of white space alone.
pub proof fn law_no_tokens_iff_blank(s: Seq<char>)
    ensures
        tokens(s).len() == 0 <==> forall|k: int| 0 <= k < s.len() ==> is_whitespace(#[trigger] s[k]),
    decreases s.len(),
{
    if s.len() == 0 {
    } else if is_whitespace(s.first()) {
        let t = s.drop_first();
        law_no_tokens_iff_blank(t);
        if tokens(s).len() == 0 {
            assert forall|k: int| 0 <= k < s.len() implies is_whitespace(#[trigger] s[k]) by {
                if k > 0 {
                    assert(s[k] == t[k - 1]);
                }
            }
        } else {
            let k = choose|k: int| 0 <= k < t.len() && !is_whitespace(#[trigger] t[k]);
            assert(s[k + 1] == t[k]);
        }
    } else {
        lemma_word_len_run(s);
        assert(tokens(s).len() >= 1);
        assert(!is_whitespace(s[0]));
    }
}

/// Splits `s` into its words.
pub fn tokenize(s: &str) -> (words: Vec<String>)
    ensures
        texts(words@) == tokens(s@),
{
    let v: Vec<char> = to_chars(s);
    let n: usize = v.len();
    let mut words: Vec<String> = Vec::new();
    let mut i: usize = 0;
    proof {
        assert(v@.skip(0) =~= v@);
        assert(texts(words@) + tokens(v@) =~= tokens(v@));
    }
    while i < n
        invariant
            n == v.len(),
            i <= n,
            texts(words@) + tokens(v@.skip(i as int)) == tokens(v@),
        decreases n - i,
    {
        let ghost rest = v@.skip(i as int);
        if char_is_whitespace(v[i]) {
            assert(rest.drop_first() =~= v@.skip(i as int + 1));
            i = i + 1;
        } else {
            let mut word: Vec<char> = Vec::new();
            let mut j: usize = i;
            while j < n && !char_is_whitespace(v[j])
                invariant
                    n == v.len(),
                    i <= j <= n,
                    word@ == v@.subrange(i as int, j as int),
                    forall|k: int| i <= k < j ==> !is_whitespace(#[trigger] v@[k]),
                decreases n - j,
            {
                word.push(v[j]);
                j = j + 1;
                assert(v@.subrange(i as int, j as int) =~= v@.subrange(i as int, j as int - 1).push(
                    v@[j as int - 1],
                ));
            }
            proof {
                let k = j as int - i as int;
                assert forall|m: int| 0 <= m < k implies !is_whitespace(#[trigger] rest[m]) by {
                    assert(rest[m] == v@[i as int + m]);
                }
                lemma_word_len_from_run(rest, k);
                assert(rest.skip(k) =~= v@.skip(j as int));
                assert(word_len(rest) == k);
                assert(rest.take(k) =~= word@);
                assert(tokens(rest) == seq![word@] + tokens(v@.skip(j as int)));
            }
            let ghost before = texts(words@);
            let text: String = from_chars(&word);
            words.push(text);
            proof {
                assert(texts(words@) =~= before.push(word@));
                assert(texts(words@) + tokens(v@.skip(j as int)) =~= before + (seq![word@]
                    + tokens(v@.skip(j as int))));
            }
            i = j;
        }
    }
    assert(texts(words@) + tokens(v@.skip(n as int)) =~= texts(words@));
    words
}

} // verus!

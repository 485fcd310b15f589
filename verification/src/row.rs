//! Rows: ordered mappings from column names to typed cell values, the
//! sanitizer that cleans their keys and values, and the search text that is
//! derived from them.

use vstd::prelude::*;
use crate::cell::{CellModel, CellValue};
use crate::text::{chars_contain, clean_text, cleaned, contains_text, same_text, to_chars};

verus! {

/// The model of a row: its fields in column order, each a key and a value.
pub type RowModel = Seq<(Seq<char>, CellModel)>;

/// No key occurs twice.
pub open spec fn keys_distinct(m: RowModel) -> bool {
    forall|i: int, j: int| 0 <= i < j < m.len() ==> (#[trigger] m[i]).0 != (#[trigger] m[j]).0
}

/// Whether `m` has a field with the key `key`.
pub open spec fn has_key(m: RowModel, key: Seq<char>) -> bool {
    exists|i: int| 0 <= i < m.len() && (#[trigger] m[i]).0 == key
}

/// The position of the field with the key `key`, where there is one.
pub open spec fn position(m: RowModel, key: Seq<char>) -> int {
    choose|i: int| 0 <= i < m.len() && (#[trigger] m[i]).0 == key
}

/// `m` after setting `key` to `value`: a key that is present keeps its place
/// and gets the new value, a new key goes to the end.
pub open spec fn row_insert(m: RowModel, key: Seq<char>, value: CellModel) -> RowModel {
    if has_key(m, key) {
        m.update(position(m, key), (key, value))
    } else {
        m.push((key, value))
    }
}

/// Setting a key keeps the keys distinct.
pub proof fn lemma_insert_keeps_distinct(m: RowModel, key: Seq<char>, value: CellModel)
    requires
        keys_distinct(m),
    ensures
        keys_distinct(row_insert(m, key, value)),
        has_key(row_insert(m, key, value), key),
{
    let r = row_insert(m, key, value);
    if has_key(m, key) {
        let p = position(m, key);
        assert(r[p].0 == key);
        assert forall|i: int, j: int| 0 <= i < j < r.len() implies (#[trigger] r[i]).0 != (
        #[trigger] r[j]).0 by {
            assert(r[i].0 == m[i].0);
            assert(r[j].0 == m[j].0);
        }
    } else {
        assert(r[m.len() as int].0 == key);
        assert forall|i: int, j: int| 0 <= i < j < r.len() implies (#[trigger] r[i]).0 != (
        #[trigger] r[j]).0 by {
            assert(r[i] == m[i]);
            if j < m.len() {
                assert(r[j] == m[j]);
            }
        }
    }
}

/// One field of a row.
#[derive(Debug, PartialEq, Eq)]
pub struct Field {
    pub key: String,
    pub value: CellValue,
}

/// An ordered mapping from column names to cell values.
#[derive(Debug, PartialEq, Eq)]
pub struct Row {
    fields: Vec<Field>,
}

impl View for Row {
    type V = RowModel;

    closed spec fn view(&self) -> RowModel {
        Seq::new(self.fields@.len(), |i: int| (self.fields@[i].key@, self.fields@[i].value@))
    }
}

impl Row {
    #[verifier::type_invariant]
    pub closed spec fn well_formed(&self) -> bool {
        keys_distinct(self@)
    }

    /// The empty row.
    pub fn new() -> (row: Row)
        ensures
            row@ == RowModel::empty(),
    {
        let row = Row { fields: Vec::new() };
        assert(row@ =~= RowModel::empty());
        row
    }

    /// The number of fields.
    pub fn len(&self) -> (n: usize)
        ensures
            n == self@.len(),
            keys_distinct(self@),
    {
        proof {
            use_type_invariant(self);
        }
        self.fields.len()
    }

    /// Whether the row has no field.
    pub fn is_empty(&self) -> (b: bool)
        ensures
            b == (self@.len() == 0),
    {
        self.fields.len() == 0
    }

    /// The key of the field at position `i`.
    pub fn key_at(&self, i: usize) -> (key: &String)
        requires
            i < self@.len(),
        ensures
            key@ == self@[i as int].0,
    {
        &self.fields[i].key
    }

    /// The value of the field at position `i`.
    pub fn value_at(&self, i: usize) -> (value: &CellValue)
        requires
            i < self@.len(),
        ensures
            value@ == self@[i as int].1,
    {
        &self.fields[i].value
    }

    /// The position of the field with the key `key`.
    pub fn find(&self, key: &str) -> (r: Option<usize>)
        ensures
            r is Some <==> has_key(self@, key@),
            r matches Some(i) ==> i < self@.len() && self@[i as int].0 == key@ && i == position(
                self@,
                key@,
            ),
    {
        proof {
            use_type_invariant(self);
        }
        let mut i: usize = 0;
        while i < self.fields.len()
            invariant
                i <= self.fields.len(),
                keys_distinct(self@),
                forall|k: int| 0 <= k < i ==> (#[trigger] self@[k]).0 != key@,
            decreases self.fields.len() - i,
        {
            if same_text(self.fields[i].key.as_str(), key) {
                assert(self@[i as int].0 == key@);
                return Some(i);
            }
            i = i + 1;
        }
        None
    }

    /// The value that `key` is mapped to.
    pub fn get(&self, key: &str) -> (r: Option<&CellValue>)
        ensures
            r is Some <==> has_key(self@, key@),
            r matches Some(v) ==> v@ == self@[position(self@, key@)].1,
    {
        match self.find(key) {
            Some(i) => Some(&self.fields[i].value),
            None => None,
        }
    }

    /// Sets `key` to `value`.
    pub fn insert(&mut self, key: String, value: CellValue)
        ensures
            final(self)@ == row_insert(old(self)@, key@, value@),
    {
        proof {
            use_type_invariant(&*self);
            lemma_insert_keeps_distinct(self@, key@, value@);
        }
        let ghost before = self@;
        let found: Option<usize> = self.find(key.as_str());
        let mut taken: Row = Row::new();
        std::mem::swap(self, &mut taken);
        let mut fields: Vec<Field> = taken.fields;
        match found {
            Some(i) => {
                fields.set(i, Field { key, value });
            },
            None => {
                fields.push(Field { key, value });
            },
        }
        let ghost after = Seq::new(fields@.len(), |i: int| (fields@[i].key@, fields@[i].value@));
        assert(after =~= row_insert(before, key@, value@));
        *self = Row { fields };
    }
}

impl Clone for Row {
    fn clone(&self) -> (r: Self)
        ensures
            r@ == self@,
    {
        proof {
            use_type_invariant(self);
        }
        let mut fields: Vec<Field> = Vec::new();
        let mut i: usize = 0;
        while i < self.fields.len()
            invariant
                i <= self.fields.len(),
                fields@.len() == i,
                forall|k: int|
                    0 <= k < i ==> (#[trigger] fields@[k]).key@ == self.fields@[k].key@
                        && fields@[k].value@ == self.fields@[k].value@,
            decreases self.fields.len() - i,
        {
            fields.push(
                Field { key: self.fields[i].key.clone(), value: self.fields[i].value.clone() },
            );
            i = i + 1;
        }
        let ghost model = Seq::new(fields@.len(), |i: int| (fields@[i].key@, fields@[i].value@));
        assert(model =~= self@);
        Row { fields }
    }
}

/// The cleaned form of a value: a text is cleaned, any other value stays.
pub open spec fn sanitized_value(v: CellModel) -> CellModel {
    match v {
        CellModel::Text(s) => CellModel::Text(cleaned(s)),
        other => other,
    }
}

/// The cleaned form of a row.  Field by field, in column order: the key and
/// a text value are cleaned; a field whose cleaned key is empty is dropped
/// with its value; the others are set in the result, so that of two keys
/// that clean to the same text the first fixes the place and the last the
/// value.
pub open spec fn sanitized(m: RowModel) -> RowModel
    decreases m.len(),
{
    if m.len() == 0 {
        RowModel::empty()
    } else {
        let before = sanitized(m.drop_last());
        let key = cleaned(m.last().0);
        if key.len() == 0 {
            before
        } else {
            row_insert(before, key, sanitized_value(m.last().1))
        }
    }
}

/// A cleaned row has distinct keys, none of them empty, and no more fields
/// than the row that it was made from.
pub proof fn law_sanitized_keys(m: RowModel)
    ensures
        keys_distinct(sanitized(m)),
        sanitized(m).len() <= m.len(),
        forall|i: int| 0 <= i < sanitized(m).len() ==> (#[trigger] sanitized(m)[i]).0.len() > 0,
    decreases m.len(),
{
    if m.len() > 0 {
        let before = sanitized(m.drop_last());
        law_sanitized_keys(m.drop_last());
        let key = cleaned(m.last().0);
        if key.len() > 0 {
            lemma_insert_keeps_distinct(before, key, sanitized_value(m.last().1));
        }
    }
}

fn clean_value(v: &CellValue) -> (r: CellValue)
    ensures
        r@ == sanitized_value(v@),
{
    match v {
        CellValue::Text(s) => CellValue::Text(clean_text(s.as_str())),
        other => other.clone(),
    }
}

/// Cleans a row in place.
pub fn clean_row_data(row: &mut Row)
    ensures
        final(row)@ == sanitized(old(row)@),
{
    let mut out: Row = Row::new();
    let n: usize = row.len();
    let mut i: usize = 0;
    assert(row@.take(0) =~= RowModel::empty());
    while i < n
        invariant
            i <= n,
            n == row@.len(),
            out@ == sanitized(row@.take(i as int)),
        decreases n - i,
    {
        let key: String = clean_text(row.key_at(i).as_str());
        let value: CellValue = clean_value(row.value_at(i));
        proof {
            let part = row@.take(i as int + 1);
            assert(part.drop_last() =~= row@.take(i as int));
            assert(part.last() == row@[i as int]);
        }
        if !key.as_str().is_empty() {
            out.insert(key, value);
        }
        i = i + 1;
    }
    assert(row@.take(n as int) =~= row@);
    *row = out;
}

/// The text that a value is shown and searched as: empty for null, `true`
/// or `false`, the numeral of a number, the text itself.
pub open spec fn value_text(v: CellModel) -> Seq<char> {
    match v {
        CellModel::Null => Seq::empty(),
        CellModel::Bool(b) => if b {
            "true"@
        } else {
            "false"@
        },
        CellModel::Number(s) => s,
        CellModel::Text(s) => s,
    }
}

/// The texts of the values of a row, in column order.
pub open spec fn value_texts(m: RowModel) -> Seq<Seq<char>> {
    m.map_values(|f: (Seq<char>, CellModel)| value_text(f.1))
}

/// `parts` joined by single spaces.
pub open spec fn joined_by_space(parts: Seq<Seq<char>>) -> Seq<char>
    decreases parts.len(),
{
    if parts.len() == 0 {
        Seq::empty()
    } else if parts.len() == 1 {
        parts.last()
    } else {
        joined_by_space(parts.drop_last()) + seq![' '] + parts.last()
    }
}

/// The search text of a row: the texts of its values, joined by single spaces.
pub open spec fn search_text_of(m: RowModel) -> Seq<char> {
    joined_by_space(value_texts(m))
}

/// The text of a value.
pub fn stringify_value(v: &CellValue) -> (s: String)
    ensures
        s@ == value_text(v@),
{
    match v {
        CellValue::Null => String::new(),
        CellValue::Bool(b) => if *b {
            "true".to_owned()
        } else {
            "false".to_owned()
        },
        CellValue::Number(n) => n.to_text(),
        CellValue::Text(s) => s.clone(),
    }
}

/// Builds the search text of a row.
pub fn build_search_text(row: &Row) -> (s: String)
    ensures
        s@ == search_text_of(row@),
{
    let mut s: String = String::new();
    let n: usize = row.len();
    let mut i: usize = 0;
    assert(value_texts(row@).take(0) =~= Seq::<Seq<char>>::empty());
    while i < n
        invariant
            i <= n,
            n == row@.len(),
            s@ == joined_by_space(value_texts(row@).take(i as int)),
        decreases n - i,
    {
        let part: String = stringify_value(row.value_at(i));
        proof {
            let parts = value_texts(row@).take(i as int + 1);
            assert(parts.drop_last() =~= value_texts(row@).take(i as int));
            assert(parts.last() == part@);
        }
        if i > 0 {
            s.push(' ');
        }
        s.append(part.as_str());
        proof {
            if i == 0 {
                assert(Seq::<char>::empty() + part@ =~= part@);
            } else {
                let head = joined_by_space(value_texts(row@).take(i as int));
                assert(head.push(' ') + part@ =~= head + seq![' '] + part@);
            }
        }
        i = i + 1;
    }
    assert(value_texts(row@).take(n as int) =~= value_texts(row@));
    s
}

/// A text that may hold a Unicode escape that was never decoded, or a NUL:
/// it holds a backslash followed by `u`, or the character U+0000.
pub open spec fn is_suspicious(s: Seq<char>) -> bool {
    contains_text(s, seq!['\\', 'u']) || s.contains('\u{0}')
}

/// Whether a field holds a suspicious text.
pub open spec fn is_suspicious_field(f: (Seq<char>, CellModel)) -> bool {
    f.1 matches CellModel::Text(s) && is_suspicious(s)
}

/// The fields of `m` with a suspicious text value, in column order, each as
/// its key and its text.
pub open spec fn suspicious_fields(m: RowModel) -> Seq<(Seq<char>, Seq<char>)> {
    m.filter(|f: (Seq<char>, CellModel)| is_suspicious_field(f)).map_values(
        |f: (Seq<char>, CellModel)| (f.0, value_text(f.1)),
    )
}

/// The model of a list of pairs of strings.
pub open spec fn text_pairs(v: Seq<(String, String)>) -> Seq<(Seq<char>, Seq<char>)> {
    v.map_values(|p: (String, String)| (p.0@, p.1@))
}

fn text_is_suspicious(s: &str) -> (b: bool)
    ensures
        b == is_suspicious(s@),
{
    let v: Vec<char> = to_chars(s);
    let mut escape: Vec<char> = Vec::new();
    escape.push('\\');
    escape.push('u');
    assert(escape@ =~= seq!['\\', 'u']);
    if chars_contain(&v, &escape) {
        return true;
    }
    let mut i: usize = 0;
    while i < v.len()
        invariant
            i <= v.len(),
            v@ == s@,
            forall|k: int| 0 <= k < i ==> v@[k] != '\u{0}',
        decreases v.len() - i,
    {
        if v[i] == '\u{0}' {
            assert(v@.contains('\u{0}'));
            return true;
        }
        i = i + 1;
    }
    false
}

/// Lists the fields of a row whose text value looks suspicious, for a
/// diagnostic message.
pub fn find_suspicious_escapes(row: &Row) -> (found: Vec<(String, String)>)
    ensures
        text_pairs(found@) == suspicious_fields(row@),
{
    let ghost pred = |f: (Seq<char>, CellModel)| is_suspicious_field(f);
    let ghost pick = |f: (Seq<char>, CellModel)| (f.0, value_text(f.1));
    let mut found: Vec<(String, String)> = Vec::new();
    let n: usize = row.len();
    let mut i: usize = 0;
    proof {
        reveal(Seq::filter);
        assert(row@.take(0) =~= RowModel::empty());
        assert(text_pairs(found@) =~= row@.take(0).filter(pred).map_values(pick));
    }
    while i < n
        invariant
            i <= n,
            n == row@.len(),
            pred == |f: (Seq<char>, CellModel)| is_suspicious_field(f),
            pick == |f: (Seq<char>, CellModel)| (f.0, value_text(f.1)),
            text_pairs(found@) == row@.take(i as int).filter(pred).map_values(pick),
        decreases n - i,
    {
        let ghost before = text_pairs(found@);
        let ghost part = row@.take(i as int + 1);
        proof {
            reveal(Seq::filter);
            assert(part.drop_last() =~= row@.take(i as int));
            assert(part.last() == row@[i as int]);
        }
        match row.value_at(i) {
            CellValue::Text(s) => {
                if text_is_suspicious(s.as_str()) {
                    found.push((row.key_at(i).clone(), s.clone()));
                    proof {
                        assert(pred(row@[i as int]));
                        assert(text_pairs(found@) =~= before.push(pick(row@[i as int])));
                        assert(part.filter(pred).map_values(pick) =~= row@.take(i as int).filter(
                            pred,
                        ).map_values(pick).push(pick(row@[i as int])));
                    }
                } else {
                    assert(!pred(row@[i as int]));
                }
            },
            _ => {
                assert(!pred(row@[i as int]));
            },
        }
        i = i + 1;
    }
    assert(row@.take(n as int) =~= row@);
    found
}

} // verus!

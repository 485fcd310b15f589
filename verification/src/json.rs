//! Rows as JSON text: one object per row, its members in column order.
//!
//! String literals are written by `serde_json`; the object is framed here.

use vstd::prelude::*;
use crate::cell::{CellModel, CellValue};
use crate::row::{Row, RowModel};

verus! {

/// The JSON string literal for the text `s`, quotes included, as
/// `serde_json` writes it.
pub uninterp spec fn json_string(s: Seq<char>) -> Seq<char>;

/// Calls `serde_json::to_string` on a string slice.  Trusted: what comes
/// back is a function of the text alone.  Writing a string into memory does
/// not fail.
#[verifier::external_body]
fn json_quote(s: &str) -> (quoted: String)
    ensures
        quoted@ == json_string(s@),
{
    serde_json::to_string(s).unwrap_or_default()
}

/// What is written for a null value.
pub const JSON_NULL: &'static str = "null";

/// The JSON text of a value: `null`, `true` or `false`, the numeral of a
/// number, the string literal of a text.
pub open spec fn value_json(v: CellModel) -> Seq<char> {
    match v {
        CellModel::Null => JSON_NULL@,
        CellModel::Bool(b) => if b {
            "true"@
        } else {
            "false"@
        },
        CellModel::Number(s) => s,
        CellModel::Text(s) => json_string(s),
    }
}

/// One member of an object: the key as a string literal, a colon, the value.
pub open spec fn member_json(f: (Seq<char>, CellModel)) -> Seq<char> {
    json_string(f.0) + seq![':'] + value_json(f.1)
}

/// The members of a row, each as JSON text.
pub open spec fn members_json(m: RowModel) -> Seq<Seq<char>> {
    m.map_values(|f: (Seq<char>, CellModel)| member_json(f))
}

/// `members` joined by commas.
pub open spec fn joined_by_comma(members: Seq<Seq<char>>) -> Seq<char>
    decreases members.len(),
{
    if members.len() == 0 {
        Seq::empty()
    } else if members.len() == 1 {
        members.last()
    } else {
        joined_by_comma(members.drop_last()) + seq![','] + members.last()
    }
}

/// The object with the given members.
pub open spec fn object_json(members: Seq<Seq<char>>) -> Seq<char> {
    seq!['{'] + joined_by_comma(members) + seq!['}']
}

/// The JSON text of a row: the object of its members in column order.
pub open spec fn row_json(m: RowModel) -> Seq<char> {
    object_json(members_json(m))
}

/// Frames members as an object.
pub fn write_object(members: &Vec<String>) -> (s: String)
    ensures
        s@ == object_json(crate::text::texts(members@)),
{
    let ghost parts = crate::text::texts(members@);
    let mut s: String = String::new();
    s.push('{');
    let mut i: usize = 0;
    assert(parts.take(0) =~= Seq::<Seq<char>>::empty());
    assert(s@ =~= seq!['{'] + joined_by_comma(parts.take(0)));
    while i < members.len()
        invariant
            i <= members.len(),
            parts == crate::text::texts(members@),
            s@ == seq!['{'] + joined_by_comma(parts.take(i as int)),
        decreases members.len() - i,
    {
        let ghost head = joined_by_comma(parts.take(i as int));
        proof {
            let part = parts.take(i as int + 1);
            assert(part.drop_last() =~= parts.take(i as int));
            assert(part.last() == members@[i as int]@);
        }
        if i > 0 {
            s.push(',');
        }
        s.append(members[i].as_str());
        proof {
            let m = members@[i as int]@;
            if i == 0 {
                assert(seq!['{'] + m =~= seq!['{'] + (Seq::<char>::empty() + m));
            } else {
                assert((seq!['{'] + head).push(',') + m =~= seq!['{'] + (head + seq![','] + m));
            }
        }
        i = i + 1;
    }
    assert(parts.take(members.len() as int) =~= parts);
    s.push('}');
    assert(s@ =~= object_json(parts));
    s
}

fn write_value(v: &CellValue) -> (s: String)
    ensures
        s@ == value_json(v@),
{
    match v {
        CellValue::Null => JSON_NULL.to_owned(),
        CellValue::Bool(b) => if *b {
            "true".to_owned()
        } else {
            "false".to_owned()
        },
        CellValue::Number(n) => n.to_text(),
        CellValue::Text(s) => json_quote(s.as_str()),
    }
}

fn write_member(key: &str, value: &CellValue) -> (s: String)
    ensures
        s@ == member_json((key@, value@)),
{
    let mut s: String = json_quote(key);
    let v: String = write_value(value);
    let ghost k = s@;
    s.push(':');
    s.append(v.as_str());
    assert(s@ =~= k + seq![':'] + v@);
    s
}

/// Writes a row as JSON text.
pub fn row_to_json(row: &Row) -> (s: String)
    ensures
        s@ == row_json(row@),
{
    let ghost all = members_json(row@);
    let mut members: Vec<String> = Vec::new();
    let n: usize = row.len();
    let mut i: usize = 0;
    while i < n
        invariant
            i <= n,
            n == row@.len(),
            all == members_json(row@),
            members@.len() == i,
            forall|k: int| 0 <= k < i ==> all[k] == (#[trigger] members@[k])@,
        decreases n - i,
    {
        let m: String = write_member(row.key_at(i).as_str(), row.value_at(i));
        members.push(m);
        i = i + 1;
    }
    assert(crate::text::texts(members@) =~= all);
    write_object(&members)
}

} // verus!

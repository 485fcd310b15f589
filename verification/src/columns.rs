//! The columns of an exported sheet: the keys of its rows, each once, and
//! two columns that every sheet has.
//!
//! The keys come in the field order of the file that owns the rows.  Keys
//! that the field order does not hold follow in ascending order, and the two
//! fixed columns stand last.

use vstd::prelude::*;
use crate::reader::names_contain;
use crate::row::{Row, RowModel};
use crate::sequences::{lemma_last_contains, lemma_push_contains};
use crate::text::{same_text, texts, to_chars};

verus! {

/// The column that holds the number of a row within its sheet.
pub const ROW_NUMBER_COLUMN: &'static str = "行号";

/// The column that holds the time of the import.
pub const IMPORT_TIME_COLUMN: &'static str = "导入时间";

/// `a` stands before `b` in the order of texts: character by character, by
/// code point, a text before the texts that it begins.
pub open spec fn text_less(a: Seq<char>, b: Seq<char>) -> bool
    decreases a.len(),
{
    if b.len() == 0 {
        false
    } else if a.len() == 0 {
        true
    } else if a.first() != b.first() {
        (a.first() as u32) < (b.first() as u32)
    } else {
        text_less(a.drop_first(), b.drop_first())
    }
}

/// Each name stands before all that follow it; so no name occurs twice.
pub open spec fn is_ascending(names: Seq<Seq<char>>) -> bool {
    forall|i: int, j: int|
        0 <= i < j < names.len() ==> text_less(#[trigger] names[i], #[trigger] names[j])
}

/// No text stands before itself.
pub proof fn lemma_text_less_irreflexive(a: Seq<char>)
    ensures
        !text_less(a, a),
    decreases a.len(),
{
    if a.len() > 0 {
        lemma_text_less_irreflexive(a.drop_first());
    }
}

/// The order of texts is transitive.
pub proof fn lemma_text_less_transitive(a: Seq<char>, b: Seq<char>, c: Seq<char>)
    requires
        text_less(a, b),
        text_less(b, c),
    ensures
        text_less(a, c),
    decreases a.len(),
{
    if a.len() > 0 && a.first() == b.first() && b.first() == c.first() {
        lemma_text_less_transitive(a.drop_first(), b.drop_first(), c.drop_first());
    }
}

/// Of two different texts, one stands before the other.
pub proof fn lemma_text_less_total(a: Seq<char>, b: Seq<char>)
    ensures
        a == b || text_less(a, b) || text_less(b, a),
    decreases a.len(),
{
    if a.len() > 0 && b.len() > 0 && a.first() == b.first() {
        lemma_text_less_total(a.drop_first(), b.drop_first());
        if a.drop_first() == b.drop_first() {
            assert(a =~= seq![a.first()] + a.drop_first());
            assert(b =~= seq![b.first()] + b.drop_first());
        }
    } else if a.len() == 0 && b.len() == 0 {
        assert(a =~= b);
    } else if a.len() > 0 && b.len() > 0 {
        lemma_code_points_differ(a.first(), b.first());
    }
}

/// Different characters have different code points.
pub proof fn lemma_code_points_differ(x: char, y: char)
    ensures
        x != y ==> x as u32 != y as u32,
{
    assert(x as u32 as char == x);
    assert(y as u32 as char == y);
}

/// How two texts stand to each other.
#[derive(Debug, Clone, Copy, PartialEq, Eq, Structural)]
pub enum TextOrder {
    Before,
    Same,
    After,
}

/// Compares two texts.
pub fn order_of(a: &Vec<char>, b: &Vec<char>) -> (r: TextOrder)
    ensures
        r == TextOrder::Before <==> text_less(a@, b@),
        r == TextOrder::Same <==> a@ == b@,
        r == TextOrder::After <==> text_less(b@, a@),
{
    proof {
        lemma_text_less_total(a@, b@);
        lemma_text_less_irreflexive(a@);
        if text_less(a@, b@) && text_less(b@, a@) {
            lemma_text_less_transitive(a@, b@, a@);
        }
        assert(a@.skip(0) =~= a@);
        assert(b@.skip(0) =~= b@);
    }
    let mut i: usize = 0;
    while i < a.len() && i < b.len()
        invariant
            i <= a.len(),
            i <= b.len(),
            text_less(a@, b@) == text_less(a@.skip(i as int), b@.skip(i as int)),
            text_less(b@, a@) == text_less(b@.skip(i as int), a@.skip(i as int)),
        decreases a.len() - i,
    {
        let x: u32 = a[i] as u32;
        let y: u32 = b[i] as u32;
        proof {
            lemma_code_points_differ(a@[i as int], b@[i as int]);
            assert(a@.skip(i as int).first() == a@[i as int]);
            assert(b@.skip(i as int).first() == b@[i as int]);
            assert(a@.skip(i as int).drop_first() =~= a@.skip(i as int + 1));
            assert(b@.skip(i as int).drop_first() =~= b@.skip(i as int + 1));
        }
        if x < y {
            return TextOrder::Before;
        }
        if x > y {
            return TextOrder::After;
        }
        i = i + 1;
    }
    if i < b.len() {
        TextOrder::Before
    } else if i < a.len() {
        TextOrder::After
    } else {
        TextOrder::Same
    }
}

/// How many of the first entries of `names` stand before `name`, counted up
/// to the first entry that does not.
pub open spec fn name_position(names: Seq<Seq<char>>, name: Seq<char>) -> int
    decreases names.len(),
{
    if names.len() == 0 || !text_less(names.first(), name) {
        0
    } else {
        1 + name_position(names.drop_first(), name)
    }
}

/// `names` with `name` put in at its place, unless it stands there already.
pub open spec fn with_name(names: Seq<Seq<char>>, name: Seq<char>) -> Seq<Seq<char>> {
    let k = name_position(names, name);
    if k < names.len() && names[k] == name {
        names
    } else {
        names.insert(k, name)
    }
}

/// `names` with the keys of `row` put in.
pub open spec fn with_keys(names: Seq<Seq<char>>, row: RowModel) -> Seq<Seq<char>>
    decreases row.len(),
{
    if row.len() == 0 {
        names
    } else {
        with_name(with_keys(names, row.drop_last()), row.last().0)
    }
}

/// Whether `x` names one of the two columns that every sheet has.
pub open spec fn is_fixed_column(x: Seq<char>) -> bool {
    x == ROW_NUMBER_COLUMN@ || x == IMPORT_TIME_COLUMN@
}

/// The two columns that every sheet has: the number of the row and the time
/// of the import.
pub open spec fn fixed_columns() -> Seq<Seq<char>> {
    seq![ROW_NUMBER_COLUMN@, IMPORT_TIME_COLUMN@]
}

/// The keys of the rows, each once, in ascending order.
pub open spec fn keys_of(rows: Seq<RowModel>) -> Seq<Seq<char>>
    decreases rows.len(),
{
    if rows.len() == 0 {
        Seq::empty()
    } else {
        with_keys(keys_of(rows.drop_last()), rows.last())
    }
}

/// The names of `order` that are among `keys` and name no fixed column, each
/// once, in the order in which `order` holds them first.
pub open spec fn listed_columns(order: Seq<Seq<char>>, keys: Seq<Seq<char>>) -> Seq<Seq<char>>
    decreases order.len(),
{
    if order.len() == 0 {
        Seq::empty()
    } else {
        let before = listed_columns(order.drop_last(), keys);
        let x = order.last();
        if keys.contains(x) && !is_fixed_column(x) && !before.contains(x) {
            before.push(x)
        } else {
            before
        }
    }
}

/// The names of `keys` that `order` does not hold and that name no fixed
/// column, in the order of `keys`.
pub open spec fn unlisted_columns(keys: Seq<Seq<char>>, order: Seq<Seq<char>>) -> Seq<Seq<char>>
    decreases keys.len(),
{
    if keys.len() == 0 {
        Seq::empty()
    } else {
        let before = unlisted_columns(keys.drop_last(), order);
        let x = keys.last();
        if !order.contains(x) && !is_fixed_column(x) {
            before.push(x)
        } else {
            before
        }
    }
}

/// The columns for the keys `keys` under the field order `order`: the keys
/// that the field order holds, in that order; then the other keys, in the
/// order of `keys`; then the two fixed columns.
pub open spec fn ordered_columns(order: Seq<Seq<char>>, keys: Seq<Seq<char>>) -> Seq<Seq<char>> {
    listed_columns(order, keys) + unlisted_columns(keys, order) + fixed_columns()
}

/// The columns of a sheet with the given rows, for a file with the field
/// order `order`: the keys of the rows in field order, then the keys that the
/// field order does not hold in ascending order, then the two fixed columns.
/// A key with the name of a fixed column gets no column of its own.
pub open spec fn columns_of(order: Seq<Seq<char>>, rows: Seq<RowModel>) -> Seq<Seq<char>> {
    ordered_columns(order, keys_of(rows))
}

/// Where, in an ascending list, the entries that stand before `name` end.
pub proof fn lemma_name_position(names: Seq<Seq<char>>, name: Seq<char>, k: int)
    requires
        0 <= k <= names.len(),
        forall|i: int| 0 <= i < k ==> text_less(#[trigger] names[i], name),
        k < names.len() ==> !text_less(names[k], name),
    ensures
        name_position(names, name) == k,
    decreases k,
{
    if k > 0 {
        let rest = names.drop_first();
        assert(text_less(names[0], name));
        assert forall|i: int| 0 <= i < k - 1 implies text_less(#[trigger] rest[i], name) by {
            assert(rest[i] == names[i + 1]);
        }
        lemma_name_position(rest, name, k - 1);
    }
}

/// The position of a name in a list: the entries before it stand before
/// the name, the entry at it does not.
pub proof fn lemma_name_position_bounds(names: Seq<Seq<char>>, name: Seq<char>)
    ensures
        0 <= name_position(names, name) <= names.len(),
        forall|i: int| 0 <= i < name_position(names, name) ==> text_less(#[trigger] names[i], name),
        name_position(names, name) < names.len() ==> !text_less(
            names[name_position(names, name)],
            name,
        ),
    decreases names.len(),
{
    if names.len() > 0 && text_less(names.first(), name) {
        let rest = names.drop_first();
        lemma_name_position_bounds(rest, name);
        assert forall|i: int| 0 <= i < name_position(names, name) implies text_less(
            #[trigger] names[i],
            name,
        ) by {
            if i > 0 {
                assert(names[i] == rest[i - 1]);
            }
        }
        if name_position(names, name) < names.len() {
            assert(names[name_position(names, name)] == rest[name_position(rest, name)]);
        }
    }
}

/// Putting a name into an ascending list keeps it ascending, adds that name
/// and no other, and keeps what was there.
pub proof fn lemma_with_name(names: Seq<Seq<char>>, name: Seq<char>)
    requires
        is_ascending(names),
    ensures
        is_ascending(with_name(names, name)),
        forall|x: Seq<char>| with_name(names, name).contains(x) <==> (names.contains(x) || x == name),
{
    let k = name_position(names, name);
    let r = with_name(names, name);
    lemma_name_position_bounds(names, name);
    if k < names.len() && names[k] == name {
        assert forall|x: Seq<char>| r.contains(x) <==> (names.contains(x) || x == name) by {
            assert(names[k] == name);
        }
    } else {
        assert forall|i: int, j: int| 0 <= i < j < r.len() implies text_less(
            #[trigger] r[i],
            #[trigger] r[j],
        ) by {
            if j < k {
                assert(r[i] == names[i] && r[j] == names[j]);
            } else if j == k {
                assert(r[i] == names[i]);
            } else if i == k {
                assert(r[j] == names[j - 1]);
                lemma_text_less_total(names[k], name);
                if j - 1 > k {
                    assert(text_less(names[k], names[j - 1]));
                    lemma_text_less_transitive(name, names[k], names[j - 1]);
                }
            } else if i < k {
                assert(r[i] == names[i] && r[j] == names[j - 1]);
            } else {
                assert(r[i] == names[i - 1] && r[j] == names[j - 1]);
            }
        }
        assert forall|x: Seq<char>| r.contains(x) <==> (names.contains(x) || x == name) by {
            if r.contains(x) {
                let i = choose|i: int| 0 <= i < r.len() && r[i] == x;
                if i < k {
                    assert(names[i] == x);
                } else if i > k {
                    assert(names[i - 1] == x);
                }
            }
            if names.contains(x) {
                let i = choose|i: int| 0 <= i < names.len() && names[i] == x;
                if i < k {
                    assert(r[i] == x);
                } else {
                    assert(r[i + 1] == x);
                }
            }
            if x == name {
                assert(r[k] == x);
            }
        }
    }
}

/// Putting the keys of a row into an ascending list keeps it ascending and
/// adds those keys and nothing else.
pub proof fn lemma_with_keys(names: Seq<Seq<char>>, row: RowModel)
    requires
        is_ascending(names),
    ensures
        is_ascending(with_keys(names, row)),
        forall|x: Seq<char>|
            with_keys(names, row).contains(x) <==> (names.contains(x) || crate::row::has_key(
                row,
                x,
            )),
    decreases row.len(),
{
    if row.len() > 0 {
        let head = row.drop_last();
        lemma_with_keys(names, head);
        lemma_with_name(with_keys(names, head), row.last().0);
        assert forall|x: Seq<char>|
            with_keys(names, row).contains(x) <==> (names.contains(x) || crate::row::has_key(
                row,
                x,
            )) by {
            if crate::row::has_key(head, x) {
                let i = choose|i: int| 0 <= i < head.len() && (#[trigger] head[i]).0 == x;
                assert(row[i].0 == x);
            }
            if crate::row::has_key(row, x) {
                let i = choose|i: int| 0 <= i < row.len() && (#[trigger] row[i]).0 == x;
                if i < head.len() {
                    assert(head[i].0 == x);
                }
            }
            if x == row.last().0 {
                assert(row[row.len() - 1].0 == x);
            }
        }
    }
}

/// The keys of rows are in ascending order, and they are the keys that the
/// rows have.
pub proof fn lemma_keys_of(rows: Seq<RowModel>)
    ensures
        is_ascending(keys_of(rows)),
        forall|x: Seq<char>|
            (#[trigger] keys_of(rows).contains(x)) <==> exists|i: int|
                0 <= i < rows.len() && crate::row::has_key(#[trigger] rows[i], x),
    decreases rows.len(),
{
    if rows.len() == 0 {
        assert forall|x: Seq<char>| !keys_of(rows).contains(x) by {}
    } else {
        let head = rows.drop_last();
        lemma_keys_of(head);
        lemma_with_keys(keys_of(head), rows.last());
        assert forall|x: Seq<char>|
            (#[trigger] keys_of(rows).contains(x)) <==> exists|i: int|
                0 <= i < rows.len() && crate::row::has_key(#[trigger] rows[i], x) by {
            if exists|i: int| 0 <= i < head.len() && crate::row::has_key(#[trigger] head[i], x) {
                let i = choose|i: int| 0 <= i < head.len() && crate::row::has_key(
                    #[trigger] head[i],
                    x,
                );
                assert(rows[i] == head[i]);
            }
            if exists|i: int| 0 <= i < rows.len() && crate::row::has_key(#[trigger] rows[i], x) {
                let i = choose|i: int| 0 <= i < rows.len() && crate::row::has_key(
                    #[trigger] rows[i],
                    x,
                );
                if i < head.len() {
                    assert(head[i] == rows[i]);
                }
            }
            if crate::row::has_key(rows.last(), x) {
                assert(rows[rows.len() - 1] == rows.last());
            }
        }
    }
}

/// The listed columns hold no name twice, and they are the names that both
/// the field order and the keys hold and that name no fixed column.
pub proof fn lemma_listed_columns(order: Seq<Seq<char>>, keys: Seq<Seq<char>>)
    ensures
        listed_columns(order, keys).no_duplicates(),
        forall|x: Seq<char>|
            (#[trigger] listed_columns(order, keys).contains(x)) <==> (order.contains(x) && keys.contains(x)
                && !is_fixed_column(x)),
    decreases order.len(),
{
    let r = listed_columns(order, keys);
    if order.len() == 0 {
        assert(r.len() == 0);
    } else {
        let head = order.drop_last();
        let before = listed_columns(head, keys);
        let last = order.last();
        lemma_listed_columns(head, keys);
        assert forall|x: Seq<char>|
            (#[trigger] r.contains(x)) <==> (order.contains(x) && keys.contains(x) && !is_fixed_column(x)) by {
            lemma_last_contains(order, x);
            assert(before.contains(x) <==> (head.contains(x) && keys.contains(x)
                && !is_fixed_column(x)));
            if r != before {
                assert(r == before.push(last));
                lemma_push_contains(before, last, x);
            } else {
                assert(r.contains(x) == before.contains(x));
            }
        }
        if r != before {
            assert forall|i: int, j: int| 0 <= i < r.len() && 0 <= j < r.len() && i != j implies r[i]
                != r[j] by {
                if i < before.len() {
                    assert(before[i] == r[i]);
                    assert(before.contains(r[i]));
                }
                if j < before.len() {
                    assert(before[j] == r[j]);
                    assert(before.contains(r[j]));
                }
            }
        }
    }
}

/// The unlisted columns are the names that the keys hold, that the field
/// order does not hold and that name no fixed column; where the keys are in
/// ascending order, so are they.
pub proof fn lemma_unlisted_columns(keys: Seq<Seq<char>>, order: Seq<Seq<char>>)
    ensures
        forall|x: Seq<char>|
            (#[trigger] unlisted_columns(keys, order).contains(x)) <==> (keys.contains(x) && !order.contains(x)
                && !is_fixed_column(x)),
        is_ascending(keys) ==> is_ascending(unlisted_columns(keys, order)),
    decreases keys.len(),
{
    let r = unlisted_columns(keys, order);
    if keys.len() == 0 {
        assert(r.len() == 0);
    } else {
        let head = keys.drop_last();
        let before = unlisted_columns(head, order);
        let last = keys.last();
        lemma_unlisted_columns(head, order);
        assert forall|x: Seq<char>|
            (#[trigger] r.contains(x)) <==> (keys.contains(x) && !order.contains(x) && !is_fixed_column(x)) by {
            lemma_last_contains(keys, x);
            assert(before.contains(x) <==> (head.contains(x) && !order.contains(x)
                && !is_fixed_column(x)));
            if r != before {
                assert(r == before.push(last));
                lemma_push_contains(before, last, x);
            } else {
                assert(r.contains(x) == before.contains(x));
            }
        }
        if is_ascending(keys) {
            assert(is_ascending(head)) by {
                assert forall|i: int, j: int| 0 <= i < j < head.len() implies text_less(
                    #[trigger] head[i],
                    #[trigger] head[j],
                ) by {
                    assert(head[i] == keys[i] && head[j] == keys[j]);
                }
            }
            assert forall|i: int, j: int| 0 <= i < j < r.len() implies text_less(
                #[trigger] r[i],
                #[trigger] r[j],
            ) by {
                if j < before.len() {
                    assert(r[i] == before[i] && r[j] == before[j]);
                } else {
                    assert(r[j] == last);
                    assert(r[i] == before[i]);
                    assert(before.contains(before[i]));
                    assert(head.contains(before[i]));
                    let k = choose|k: int| 0 <= k < head.len() && head[k] == before[i];
                    assert(keys[k] == head[k]);
                    assert(text_less(keys[k], keys[keys.len() - 1]));
                }
            }
        }
    }
}

/// The two fixed columns have different names.
pub proof fn lemma_fixed_columns_differ()
    ensures
        ROW_NUMBER_COLUMN@ != IMPORT_TIME_COLUMN@,
{
    reveal_strlit("行号");
    reveal_strlit("导入时间");
    assert(ROW_NUMBER_COLUMN@.len() != IMPORT_TIME_COLUMN@.len());
}

/// The columns of a sheet hold no name twice, and they are the two fixed
/// columns and the keys of the rows.
pub proof fn law_columns_are_union(order: Seq<Seq<char>>, rows: Seq<RowModel>)
    ensures
        columns_of(order, rows).no_duplicates(),
        forall|x: Seq<char>|
            (#[trigger] columns_of(order, rows).contains(x)) <==> (is_fixed_column(x) || exists|i: int|
                0 <= i < rows.len() && crate::row::has_key(#[trigger] rows[i], x)),
{
    let keys = keys_of(rows);
    let a = listed_columns(order, keys);
    let b = unlisted_columns(keys, order);
    let c = fixed_columns();
    let all = columns_of(order, rows);
    lemma_keys_of(rows);
    lemma_listed_columns(order, keys);
    lemma_unlisted_columns(keys, order);
    lemma_fixed_columns_differ();
    assert(c[0] == ROW_NUMBER_COLUMN@ && c[1] == IMPORT_TIME_COLUMN@);
    assert forall|i: int| 0 <= i < all.len() implies (#[trigger] all[i]) == (if i < a.len() {
        a[i]
    } else if i < a.len() + b.len() {
        b[i - a.len()]
    } else {
        c[i - a.len() - b.len()]
    }) by {}
    assert forall|x: Seq<char>|
        (#[trigger] all.contains(x)) <==> (a.contains(x) || b.contains(x) || is_fixed_column(x)) by {
        if all.contains(x) {
            let i = choose|i: int| 0 <= i < all.len() && all[i] == x;
            if i < a.len() {
                assert(a[i] == x);
            } else if i < a.len() + b.len() {
                assert(b[i - a.len()] == x);
            } else {
                assert(c[i - a.len() - b.len()] == x);
            }
        }
        if a.contains(x) {
            let i = choose|i: int| 0 <= i < a.len() && a[i] == x;
            assert(all[i] == x);
        }
        if b.contains(x) {
            let i = choose|i: int| 0 <= i < b.len() && b[i] == x;
            assert(all[a.len() as int + i] == x);
        }
        if x == ROW_NUMBER_COLUMN@ {
            assert(all[(a.len() + b.len()) as int] == x);
        }
        if x == IMPORT_TIME_COLUMN@ {
            assert(all[(a.len() + b.len()) as int + 1] == x);
        }
    }
    assert forall|i: int, j: int| 0 <= i < all.len() && 0 <= j < all.len() && i != j implies all[i]
        != all[j] by {
        if i < a.len() {
            assert(a.contains(a[i]));
        } else if i < a.len() + b.len() {
            assert(b.contains(b[i - a.len()]));
        }
        if j < a.len() {
            assert(a.contains(a[j]));
        } else if j < a.len() + b.len() {
            assert(b.contains(b[j - a.len()]));
        }
        if a.len() <= i < a.len() + b.len() && a.len() <= j < a.len() + b.len() {
            lemma_text_less_irreflexive(b[i - a.len()]);
            lemma_text_less_irreflexive(b[j - a.len()]);
            if i < j {
                assert(text_less(b[i - a.len()], b[j - a.len()]));
            } else {
                assert(text_less(b[j - a.len()], b[i - a.len()]));
            }
        }
    }
}

/// The columns follow the field order: where the field order holds no name
/// twice, the columns begin with the names of the field order that are keys
/// of the rows, in that order.  The keys that the field order does not hold
/// follow in ascending order.
pub proof fn law_columns_follow_field_order(order: Seq<Seq<char>>, rows: Seq<RowModel>)
    requires
        order.no_duplicates(),
    ensures
        listed_columns(order, keys_of(rows)) == order.filter(
            |x: Seq<char>| keys_of(rows).contains(x) && !is_fixed_column(x),
        ),
        is_ascending(unlisted_columns(keys_of(rows), order)),
{
    let keys = keys_of(rows);
    lemma_keys_of(rows);
    lemma_unlisted_columns(keys, order);
    lemma_listed_is_filter(order, keys);
}

/// Of a field order that holds no name twice, the listed columns are the
/// names that are keys and name no fixed column.
pub proof fn lemma_listed_is_filter(order: Seq<Seq<char>>, keys: Seq<Seq<char>>)
    requires
        order.no_duplicates(),
    ensures
        listed_columns(order, keys) == order.filter(
            |x: Seq<char>| keys.contains(x) && !is_fixed_column(x),
        ),
    decreases order.len(),
{
    reveal(Seq::filter);
    let pred = |x: Seq<char>| keys.contains(x) && !is_fixed_column(x);
    if order.len() > 0 {
        let head = order.drop_last();
        lemma_listed_is_filter(head, keys);
        lemma_listed_columns(head, keys);
        let x = order.last();
        if head.contains(x) {
            let i = choose|i: int| 0 <= i < head.len() && head[i] == x;
            assert(order[i] == x && order[order.len() - 1] == x);
        }
        assert(!listed_columns(head, keys).contains(x));
        assert(pred(x) == (keys.contains(x) && !is_fixed_column(x)));
    }
}

/// Finds the place of a name in a list of names, and whether it stands there.
fn find_place(names: &Vec<String>, wanted: &Vec<char>) -> (r: (usize, bool))
    ensures
        r.0 == name_position(texts(names@), wanted@),
        r.0 <= names@.len(),
        r.1 == (r.0 < names@.len() && texts(names@)[r.0 as int] == wanted@),
{
    let ghost all = texts(names@);
    let mut k: usize = 0;
    while k < names.len()
        invariant
            k <= names.len(),
            all == texts(names@),
            forall|i: int| 0 <= i < k ==> text_less(#[trigger] all[i], wanted@),
        decreases names.len() - k,
    {
        let here: Vec<char> = to_chars(names[k].as_str());
        let order: TextOrder = order_of(&here, wanted);
        assert(all[k as int] == here@);
        match order {
            TextOrder::Before => {
                k = k + 1;
            },
            TextOrder::Same => {
                proof {
                    lemma_name_position(all, wanted@, k as int);
                }
                return (k, true);
            },
            TextOrder::After => {
                proof {
                    lemma_name_position(all, wanted@, k as int);
                }
                return (k, false);
            },
        }
    }
    proof {
        lemma_name_position(all, wanted@, k as int);
    }
    (k, false)
}

/// Puts a name into a list of names at its place, unless it stands there.
pub fn add_name(names: &mut Vec<String>, name: &str)
    ensures
        texts(final(names)@) == with_name(texts(old(names)@), name@),
{
    let ghost before = texts(names@);
    let wanted: Vec<char> = to_chars(name);
    let place: (usize, bool) = find_place(names, &wanted);
    if !place.1 {
        names.insert(place.0, name.to_owned());
        assert(texts(names@) =~= before.insert(place.0 as int, name@));
    }
}

/// Puts the keys of a row into a list of names.
pub fn add_keys(names: &mut Vec<String>, row: &Row)
    ensures
        texts(final(names)@) == with_keys(texts(old(names)@), row@),
{
    let ghost start = texts(names@);
    let n: usize = row.len();
    let mut i: usize = 0;
    assert(row@.take(0) =~= RowModel::empty());
    while i < n
        invariant
            i <= n,
            n == row@.len(),
            texts(names@) == with_keys(start, row@.take(i as int)),
        decreases n - i,
    {
        proof {
            let part = row@.take(i as int + 1);
            assert(part.drop_last() =~= row@.take(i as int));
            assert(part.last() == row@[i as int]);
        }
        add_name(names, row.key_at(i).as_str());
        i = i + 1;
    }
    assert(row@.take(n as int) =~= row@);
}

fn names_a_fixed_column(name: &str) -> (b: bool)
    ensures
        b == is_fixed_column(name@),
{
    same_text(name, ROW_NUMBER_COLUMN) || same_text(name, IMPORT_TIME_COLUMN)
}

/// Puts the keys into the order of the columns of a sheet.
pub fn order_columns(order: &Vec<String>, keys: &Vec<String>) -> (columns: Vec<String>)
    ensures
        texts(columns@) == ordered_columns(texts(order@), texts(keys@)),
{
    let ghost o = texts(order@);
    let ghost k = texts(keys@);
    let mut columns: Vec<String> = Vec::new();
    let mut i: usize = 0;
    assert(o.take(0) =~= Seq::<Seq<char>>::empty());
    assert(texts(columns@) =~= listed_columns(o.take(0), k));
    while i < order.len()
        invariant
            i <= order.len(),
            o == texts(order@),
            k == texts(keys@),
            texts(columns@) == listed_columns(o.take(i as int), k),
        decreases order.len() - i,
    {
        proof {
            let part = o.take(i as int + 1);
            assert(part.drop_last() =~= o.take(i as int));
            assert(part.last() == order@[i as int]@);
        }
        let name: &str = order[i].as_str();
        if names_contain(keys, name) && !names_a_fixed_column(name) && !names_contain(
            &columns,
            name,
        ) {
            let ghost before = texts(columns@);
            columns.push(name.to_owned());
            assert(texts(columns@) =~= before.push(name@));
        }
        i = i + 1;
    }
    assert(o.take(order.len() as int) =~= o);
    let ghost listed = texts(columns@);
    let mut j: usize = 0;
    assert(k.take(0) =~= Seq::<Seq<char>>::empty());
    assert(texts(columns@) =~= listed + unlisted_columns(k.take(0), o));
    while j < keys.len()
        invariant
            j <= keys.len(),
            o == texts(order@),
            k == texts(keys@),
            texts(columns@) == listed + unlisted_columns(k.take(j as int), o),
        decreases keys.len() - j,
    {
        proof {
            let part = k.take(j as int + 1);
            assert(part.drop_last() =~= k.take(j as int));
            assert(part.last() == keys@[j as int]@);
        }
        let name: &str = keys[j].as_str();
        if !names_contain(order, name) && !names_a_fixed_column(name) {
            let ghost before = texts(columns@);
            columns.push(name.to_owned());
            assert(texts(columns@) =~= before.push(name@));
            assert(before.push(name@) =~= listed + unlisted_columns(k.take(j as int), o).push(
                name@,
            ));
        }
        j = j + 1;
    }
    assert(k.take(keys.len() as int) =~= k);
    let ghost data = texts(columns@);
    columns.push(ROW_NUMBER_COLUMN.to_owned());
    columns.push(IMPORT_TIME_COLUMN.to_owned());
    assert(texts(columns@) =~= data + fixed_columns());
    columns
}

} // verus!

//! The directory scanner's rule: which files are spreadsheets, by the
//! extension of their name.  Walking the directory tree is the caller's task.

use vstd::prelude::*;
use crate::text::to_chars;

verus! {

/// Why a folder cannot be scanned.
#[derive(Debug, Clone, Copy, PartialEq, Eq, Structural)]
pub enum InputError {
    /// Nothing is there under the path.
    Missing,
    /// What is there is no folder.
    NotADirectory,
}

/// Whether an import run over a folder can begin: the path has to be there
/// and has to be a folder.
pub open spec fn root_check(exists: bool, is_dir: bool) -> Result<(), InputError> {
    if !exists {
        Err(InputError::Missing)
    } else if !is_dir {
        Err(InputError::NotADirectory)
    } else {
        Ok(())
    }
}

/// Decides whether an import run over a folder can begin.
pub fn check_root(exists: bool, is_dir: bool) -> (r: Result<(), InputError>)
    ensures
        r == root_check(exists, is_dir),
{
    if !exists {
        Err(InputError::Missing)
    } else if !is_dir {
        Err(InputError::NotADirectory)
    } else {
        Ok(())
    }
}

/// The position of the last point in `name`, or -1 where it has none.
pub open spec fn last_point(name: Seq<char>) -> int
    decreases name.len(),
{
    if name.len() == 0 {
        -1
    } else if name.last() == '.' {
        name.len() - 1
    } else {
        last_point(name.drop_last())
    }
}

/// The extension of a file name: what stands behind its last point.  A name
/// without a point has none, and neither has a name whose only point is its
/// first character.
pub open spec fn extension_of(name: Seq<char>) -> Option<Seq<char>> {
    if last_point(name) <= 0 {
        None
    } else {
        Some(name.skip(last_point(name) + 1))
    }
}

/// `c` is the letter `lower`, in either case.  `lower` is a small ASCII letter.
pub open spec fn is_letter(c: char, lower: char) -> bool {
    c == lower || c as u32 + 32 == lower as u32
}

/// `ext` is `xlsx` or `xls`, in any mix of cases.
pub open spec fn is_spreadsheet_extension(ext: Seq<char>) -> bool {
    ||| ext.len() == 4 && is_letter(ext[0], 'x') && is_letter(ext[1], 'l') && is_letter(ext[2], 's')
        && is_letter(ext[3], 'x')
    ||| ext.len() == 3 && is_letter(ext[0], 'x') && is_letter(ext[1], 'l') && is_letter(ext[2], 's')
}

/// Whether a file with the name `name` is taken for a spreadsheet.
pub open spec fn is_spreadsheet_name(name: Seq<char>) -> bool {
    extension_of(name) matches Some(ext) && is_spreadsheet_extension(ext)
}

fn char_is_letter(c: char, lower: char) -> (b: bool)
    requires
        lower as u32 >= 32,
    ensures
        b == is_letter(c, lower),
{
    c == lower || c as u32 == lower as u32 - 32
}

/// Whether a file with the name `name` is taken for a spreadsheet.
pub fn has_spreadsheet_extension(name: &str) -> (b: bool)
    ensures
        b == is_spreadsheet_name(name@),
{
    let v: Vec<char> = to_chars(name);
    let mut p: usize = v.len();
    assert(v@.take(p as int) =~= v@);
    while p > 0 && v[p - 1] != '.'
        invariant
            p <= v.len(),
            last_point(v@) == last_point(v@.take(p as int)),
        decreases p,
    {
        assert(v@.take(p as int).drop_last() =~= v@.take(p as int - 1));
        p = p - 1;
    }
    if p == 0 {
        return false;
    }
    assert(last_point(v@) == p - 1) by {
        assert(v@.take(p as int).last() == '.');
    }
    if p == 1 {
        return false;
    }
    let n: usize = v.len() - p;
    let ghost ext = v@.skip(p as int);
    assert(extension_of(v@) == Some(ext));
    if n == 4 {
        assert(ext[0] == v@[p as int] && ext[1] == v@[p + 1] && ext[2] == v@[p + 2] && ext[3] == v@[p
            + 3]);
        char_is_letter(v[p], 'x') && char_is_letter(v[p + 1], 'l') && char_is_letter(v[p + 2], 's')
            && char_is_letter(v[p + 3], 'x')
    } else if n == 3 {
        assert(ext[0] == v@[p as int] && ext[1] == v@[p + 1] && ext[2] == v@[p + 2]);
        char_is_letter(v[p], 'x') && char_is_letter(v[p + 1], 'l') && char_is_letter(v[p + 2], 's')
    } else {
        false
    }
}

} // verus!

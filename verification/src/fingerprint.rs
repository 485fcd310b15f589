//! The change detector: the fingerprint of a file's content, and the rule
//! that decides from it whether the file has to be imported again.
//!
//! The fingerprint is the MD5 digest of the content, written as 32 lower-case
//! hexadecimal digits.  It serves to notice change, not to resist an attacker.

use vstd::prelude::*;
use crate::text::same_text;

verus! {

/// The MD5 digest of `data`, as the `md5` crate computes it.
pub uninterp spec fn md5_digest(data: Seq<u8>) -> Seq<u8>;

/// Calls `md5::compute`.  Trusted: the result is the digest of the bytes
/// handed in, a function of those bytes alone, and it is 16 bytes long (the
/// crate's `Digest` is an array of 16 bytes).
#[verifier::external_body]
fn md5_compute(data: &[u8]) -> (digest: Vec<u8>)
    ensures
        digest@ == md5_digest(data@),
        digest@.len() == 16,
{
    md5::compute(data).0.to_vec()
}

/// The lower-case hexadecimal digit of a value below 16.
pub open spec fn hex_digit(n: int) -> char {
    if n == 0 {
        '0'
    } else if n == 1 {
        '1'
    } else if n == 2 {
        '2'
    } else if n == 3 {
        '3'
    } else if n == 4 {
        '4'
    } else if n == 5 {
        '5'
    } else if n == 6 {
        '6'
    } else if n == 7 {
        '7'
    } else if n == 8 {
        '8'
    } else if n == 9 {
        '9'
    } else if n == 10 {
        'a'
    } else if n == 11 {
        'b'
    } else if n == 12 {
        'c'
    } else if n == 13 {
        'd'
    } else if n == 14 {
        'e'
    } else {
        'f'
    }
}

/// `bytes` in hexadecimal: two digits for each byte, the high one first.
pub open spec fn hex_of(bytes: Seq<u8>) -> Seq<char> {
    Seq::new(
        2 * bytes.len(),
        |i: int|
            if i % 2 == 0 {
                hex_digit(bytes[i / 2] as int / 16)
            } else {
                hex_digit(bytes[i / 2] as int % 16)
            },
    )
}

/// The fingerprint of a file with the content `data`.
pub open spec fn fingerprint_of(data: Seq<u8>) -> Seq<char> {
    hex_of(md5_digest(data))
}

/// Different byte strings are written differently in hexadecimal.  So two
/// contents have the same fingerprint exactly when they have the same digest.
pub proof fn lemma_hex_is_injective(a: Seq<u8>, b: Seq<u8>)
    requires
        hex_of(a) == hex_of(b),
    ensures
        a == b,
{
    assert(hex_of(a).len() == 2 * a.len());
    assert(hex_of(b).len() == 2 * b.len());
    assert forall|i: int| 0 <= i < a.len() implies a[i] == b[i] by {
        let x = a[i] as int;
        let y = b[i] as int;
        assert(hex_of(a)[2 * i] == hex_digit(x / 16)) by {
            assert((2 * i) % 2 == 0);
            assert((2 * i) / 2 == i);
        }
        assert(hex_of(b)[2 * i] == hex_digit(y / 16)) by {
            assert((2 * i) % 2 == 0);
            assert((2 * i) / 2 == i);
        }
        assert(hex_of(a)[2 * i + 1] == hex_digit(x % 16)) by {
            assert((2 * i + 1) % 2 == 1);
            assert((2 * i + 1) / 2 == i);
        }
        assert(hex_of(b)[2 * i + 1] == hex_digit(y % 16)) by {
            assert((2 * i + 1) % 2 == 1);
            assert((2 * i + 1) / 2 == i);
        }
        assert(0 <= x / 16 < 16 && 0 <= y / 16 < 16);
        assert(x / 16 == y / 16);
        assert(x % 16 == y % 16);
    }
    assert(a =~= b);
}

/// Fingerprints tell contents apart as far as their digests do: two contents
/// have the same fingerprint exactly when they have the same digest.
pub proof fn law_fingerprint_follows_digest(a: Seq<u8>, b: Seq<u8>)
    ensures
        fingerprint_of(a) == fingerprint_of(b) <==> md5_digest(a) == md5_digest(b),
{
    if fingerprint_of(a) == fingerprint_of(b) {
        lemma_hex_is_injective(md5_digest(a), md5_digest(b));
    }
}

/// Two contents have different fingerprints, unless they are among the
/// contents that MD5 gives one digest: writing the digest down loses nothing.
pub proof fn law_fingerprints_differ(a: Seq<u8>, b: Seq<u8>)
    requires
        md5_digest(a) != md5_digest(b),
    ensures
        fingerprint_of(a) != fingerprint_of(b),
{
    law_fingerprint_follows_digest(a, b);
}

fn hex_char(n: u8) -> (c: char)
    requires
        n < 16,
    ensures
        c == hex_digit(n as int),
{
    if n == 0 {
        '0'
    } else if n == 1 {
        '1'
    } else if n == 2 {
        '2'
    } else if n == 3 {
        '3'
    } else if n == 4 {
        '4'
    } else if n == 5 {
        '5'
    } else if n == 6 {
        '6'
    } else if n == 7 {
        '7'
    } else if n == 8 {
        '8'
    } else if n == 9 {
        '9'
    } else if n == 10 {
        'a'
    } else if n == 11 {
        'b'
    } else if n == 12 {
        'c'
    } else if n == 13 {
        'd'
    } else if n == 14 {
        'e'
    } else {
        'f'
    }
}

/// Writes `bytes` in lower-case hexadecimal.
pub fn hex_encode(bytes: &Vec<u8>) -> (s: String)
    ensures
        s@ == hex_of(bytes@),
{
    let mut s: String = String::new();
    let mut i: usize = 0;
    while i < bytes.len()
        invariant
            i <= bytes.len(),
            s@.len() == 2 * i,
            forall|k: int| 0 <= k < 2 * i ==> #[trigger] s@[k] == hex_of(bytes@)[k],
        decreases bytes.len() - i,
    {
        let b: u8 = bytes[i];
        let ghost before = s@;
        s.push(hex_char(b / 16));
        s.push(hex_char(b % 16));
        proof {
            assert((2 * i) % 2 == 0 && (2 * i) / 2 == i);
            assert((2 * i + 1) % 2 == 1 && (2 * i + 1) / 2 == i);
            assert(s@ =~= before.push(hex_digit(b as int / 16)).push(hex_digit(b as int % 16)));
        }
        i = i + 1;
    }
    assert(s@ =~= hex_of(bytes@));
    s
}

/// Computes the fingerprint of a file's content.
pub fn generate_file_hash(content: &[u8]) -> (hash: String)
    ensures
        hash@ == fingerprint_of(content@),
        hash@.len() == 32,
{
    let digest: Vec<u8> = md5_compute(content);
    hex_encode(&digest)
}

/// Whether a file with the fingerprint `fresh` differs from what is stored
/// of it: it does where nothing is stored, or another fingerprint is.
pub open spec fn differs_from_stored(stored: Option<Seq<char>>, fresh: Seq<char>) -> bool {
    match stored {
        None => true,
        Some(s) => s != fresh,
    }
}

/// Compares a fresh fingerprint with the stored one.
pub fn is_file_changed(stored: Option<&str>, fresh: &str) -> (changed: bool)
    ensures
        changed == differs_from_stored(
            match stored {
                Some(s) => Some(s@),
                None => None,
            },
            fresh@,
        ),
{
    match stored {
        None => true,
        Some(s) => !same_text(s, fresh),
    }
}

/// Whether a file has to be imported: always when a fresh import is forced;
/// else when the check found it changed, and also when the check itself
/// failed (`None`), so that a file that could not be checked is not passed over.
pub open spec fn import_required(force_reimport: bool, changed: Option<bool>) -> bool {
    force_reimport || match changed {
        Some(c) => c,
        None => true,
    }
}

/// Decides whether a file has to be imported.
pub fn needs_import(force_reimport: bool, changed: Option<bool>) -> (needed: bool)
    ensures
        needed == import_required(force_reimport, changed),
{
    if force_reimport {
        true
    } else {
        match changed {
            Some(c) => c,
            None => true,
        }
    }
}

} // verus!

use vstd::prelude::*;

verus! {

#[verifier::external_type_specification]
#[verifier::external_body]
pub struct ExGitError(git2::Error);

pub open spec fn is_hex_digit(c: char) -> bool {
    ('0' <= c && c <= '9') || ('a' <= c && c <= 'f') || ('A' <= c && c <= 'F')
}

pub open spec fn hex_value(c: char) -> int {
    if '0' <= c && c <= '9' {
        c as int - '0' as int
    } else if 'a' <= c && c <= 'f' {
        c as int - 'a' as int + 10
    } else {
        c as int - 'A' as int + 10
    }
}

/// A commit identifier as git accepts it: one to forty hex digits, an
/// abbreviation standing for the identifier padded with zeros.
pub open spec fn is_commit_id(s: Seq<char>) -> bool {
    0 < s.len() <= 40 && forall|i: int| 0 <= i < s.len() ==> is_hex_digit(#[trigger] s[i])
}

pub open spec fn digit_at(s: Seq<char>, p: int) -> int {
    if 0 <= p < s.len() {
        hex_value(s[p])
    } else {
        0
    }
}

/// The twenty bytes of the object id that the hex digits `s` spell.
pub open spec fn commit_bytes(s: Seq<char>) -> Seq<u8> {
    Seq::new(20, |j: int| (16 * digit_at(s, 2 * j) + digit_at(s, 2 * j + 1)) as u8)
}

/// Relies on git2::Oid::from_str (libgit2's git_oid_fromstrn): it fails on an
/// empty string, on more than forty characters and on any character that is
/// not a hex digit; otherwise each digit fills a half byte of the twenty,
/// from the first, and the rest stay zero.
#[verifier::external_body]
fn oid_from_str(s: &str) -> (r: Result<Vec<u8>, git2::Error>)
    ensures
        r.is_ok() == is_commit_id(s@),
        r.is_ok() ==> r.unwrap()@ == commit_bytes(s@),
{
    match git2::Oid::from_str(s) {
        Ok(oid) => Ok(oid.as_bytes().to_vec()),
        Err(e) => Err(e),
    }
}

/// The object id that a pinned commit names, or `None` where it is no
/// commit identifier.
pub fn commit_id(hash: &String) -> (r: Option<Vec<u8>>)
    ensures
        r.is_some() == is_commit_id(hash@),
        r.is_some() ==> r.unwrap()@ == commit_bytes(hash@),
{
    match oid_from_str(hash.as_str()) {
        Ok(bytes) => Some(bytes),
        Err(_) => None,
    }
}

} // verus!

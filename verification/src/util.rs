//! Password digests and small helpers on strings and byte arrays.

use blake2::{Blake2s, Digest};
use vstd::prelude::*;

verus! {

/// The BLAKE2s-256 digest of a string, as computed by the `blake2` crate.
pub uninterp spec fn blake2s_digest(input: Seq<char>) -> Seq<u8>;

/// The name of the administrator principal.
pub open spec fn admin_name() -> Seq<char> {
    "admin"@
}

/// The name of the principal that stands for everyone.
pub open spec fn anyone_name() -> Seq<char> {
    "anyone"@
}

/// The two built-in principal names differ.
pub proof fn lemma_builtin_names_differ()
    ensures
        admin_name() != anyone_name(),
        admin_name().len() == 5,
        anyone_name().len() == 6,
{
    reveal_strlit("admin");
    reveal_strlit("anyone");
    assert("admin"@.len() == 5);
    assert("anyone"@.len() == 6);
}

/// Hashes a password with `blake2::Blake2s` (`Digest::new`, `input`, `result`).
/// The contract claims only that the 32 bytes returned are a function of the
/// characters of the input, named `blake2s_digest`. The crate refuses input
/// only beyond 2^64 bytes, which no string reaches.
#[verifier::external_body]
pub fn hash(input: String) -> (res: [u8; 32])
    ensures
        res@ == blake2s_digest(input@),
{
    let mut hasher = Blake2s::new();
    hasher.input(input);
    let res = hasher.result();
    let mut out = [0u8; 32];
    out.copy_from_slice(res.as_slice());
    out
}

/// Whether two strings hold the same characters.
pub fn same_name(a: &String, b: &String) -> (r: bool)
    ensures
        r == (a@ == b@),
{
    *a == *b
}

/// Whether a name is the administrator's.
pub fn is_admin(name: &String) -> (r: bool)
    ensures
        r == (name@ == admin_name()),
{
    let admin = String::from_str("admin");
    *name == admin
}

/// Whether a name is that of the principal `anyone`.
pub fn is_anyone(name: &String) -> (r: bool)
    ensures
        r == (name@ == anyone_name()),
{
    let anyone = String::from_str("anyone");
    *name == anyone
}

/// Whether two digests are equal byte for byte.
pub fn same_digest(a: &[u8; 32], b: &[u8; 32]) -> (r: bool)
    ensures
        r == (a@ == b@),
{
    let mut i: usize = 0;
    while i < 32
        invariant
            i <= 32,
            forall|j: int| 0 <= j < i ==> a@[j] == b@[j],
        decreases 32 - i,
    {
        if a[i] != b[i] {
            return false;
        }
        i += 1;
    }
    assert(a@ =~= b@);
    true
}

} // verus!

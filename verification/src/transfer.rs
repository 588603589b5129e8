//! Copies to a PSP: a file is first written next to its destination under a
//! temporary name, and kept only when its SHA-256 digest equals that of the
//! source.
use vstd::prelude::*;
use vstd::string::StringExecFns;
use sha2::{Digest, Sha256};
use crate::path::{file_name, set_extension, with_extension};
use crate::text::{chars_of, outcome_view, owned, string_of};

verus! {

/// The SHA-256 digest of `data`, as `sha2::Sha256` computes it.
pub uninterp spec fn sha256_of(data: Seq<u8>) -> Seq<u8>;

/// `<sha2::Sha256 as sha2::Digest>::digest`: hashes `data` with SHA-256
/// and returns the 32 bytes of the digest. The contract names the result
/// `sha256_of(data)`; nothing else is claimed of it.
#[verifier::external_body]
fn sha256(data: &[u8]) -> (r: [u8; 32])
    ensures
        r@ == sha256_of(data@),
{
    Sha256::digest(data).into()
}

pub const COPY_CHECK_FAILED: &'static str = "La vérification de la copie PSP a échoué";

pub const ALREADY_THERE: &'static str = " existe déjà. Confirme son remplacement.";

/// The verdict on a copy whose bytes are `copy`, made from `source`.
pub open spec fn copy_verdict(source: Seq<u8>, copy: Seq<u8>) -> Result<(), Seq<char>> {
    if sha256_of(source) == sha256_of(copy) {
        Ok(())
    } else {
        Err(COPY_CHECK_FAILED@)
    }
}

/// The verdict on a copy whose digest is `copy`, for a source whose digest
/// is `source`.
pub open spec fn digest_verdict(source: Seq<u8>, copy: Seq<u8>) -> Result<(), Seq<char>> {
    if source == copy {
        Ok(())
    } else {
        Err(COPY_CHECK_FAILED@)
    }
}

/// Compares the digest of a copy with that of its source.
pub fn compare_digests(source: &[u8; 32], copy: &[u8; 32]) -> (r: Result<(), String>)
    ensures
        outcome_view(r) == digest_verdict(source@, copy@),
{
    let mut i: usize = 0;
    while i < 32
        invariant
            i <= 32,
            source@.len() == 32,
            copy@.len() == 32,
            forall|k: int| 0 <= k < i ==> source@[k] == copy@[k],
        decreases 32 - i,
    {
        if source[i] != copy[i] {
            return Err(owned(COPY_CHECK_FAILED));
        }
        i = i + 1;
    }
    proof {
        assert(source@ =~= copy@);
    }
    Ok(())
}

/// Checks a copy against its source by their SHA-256 digests.
pub fn verify_copy(source: &[u8], copy: &[u8]) -> (r: Result<(), String>)
    ensures
        outcome_view(r) == copy_verdict(source@, copy@),
{
    let a = sha256(source);
    let b = sha256(copy);
    compare_digests(&a, &b)
}

/// The refusal to replace an existing destination without leave: the
/// message names the destination's file name (nothing when it has none).
pub open spec fn overwrite_verdict(destination: Seq<char>, exists: bool, overwrite: bool) -> Result<
    (),
    Seq<char>,
> {
    if exists && !overwrite {
        Err(
            match file_name(destination) {
                Some(n) => n,
                None => Seq::empty(),
            } + ALREADY_THERE@,
        )
    } else {
        Ok(())
    }
}

/// Refuses to replace an existing file unless the user allowed it.
pub fn check_overwrite(destination: &str, exists: bool, overwrite: bool) -> (r: Result<(), String>)
    ensures
        outcome_view(r) == overwrite_verdict(destination@, exists, overwrite),
{
    if exists && !overwrite {
        let d = chars_of(destination);
        let mut m = match crate::path::path_file_name(&d) {
            Some(n) => string_of(&n),
            None => String::new(),
        };
        m.append(ALREADY_THERE);
        return Err(m);
    }
    Ok(())
}

/// Where a copy is written before it is checked: the destination with the
/// extension `copying`.
pub fn copy_temporary(destination: &str) -> (r: String)
    ensures
        r@ == with_extension(destination@, "copying"@),
{
    proof {
        reveal_strlit("copying");
    }
    set_extension(&chars_of(destination), "copying")
}

/// A copy that holds the same bytes as its source is always kept.
pub proof fn lemma_identical_copy_passes(data: Seq<u8>)
    ensures
        copy_verdict(data, data) == Ok::<(), Seq<char>>(()),
{
}

} // verus!

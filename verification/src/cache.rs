//! The name of the incremental cache directory.
//!
//! The name is made of the compiler's identity, hashed so that a long path
//! or one with unsafe characters does no harm, and of the discriminator of
//! the configuration, taken as it is. Equal inputs give equal names, in
//! every process.

use crate::text::{decimal, decimal_string, lemma_decimal_shape_u64};
use vstd::prelude::*;
use vstd::utf8::encode_utf8;

verus! {

/// Where the FNV-1a hash of 64 bits starts.
pub const FNV_OFFSET_BASIS: u64 = 0xcbf2_9ce4_8422_2325;

/// What the FNV-1a hash of 64 bits multiplies by.
pub const FNV_PRIME: u64 = 0x0100_0000_01b3;

/// One step of FNV-1a: the byte is mixed in by exclusive or, then the hash
/// is multiplied by the prime, modulo 2^64.
pub open spec fn fnv1a_step(hash: u64, byte: u8) -> u64 {
    (((hash ^ (byte as u64)) as int * FNV_PRIME as int) % 0x1_0000_0000_0000_0000) as u64
}

/// The FNV-1a hash of a byte sequence.
pub open spec fn fnv1a(bytes: Seq<u8>) -> u64
    decreases bytes.len(),
{
    if bytes.len() == 0 {
        FNV_OFFSET_BASIS
    } else {
        fnv1a_step(fnv1a(bytes.drop_last()), bytes.last())
    }
}

/// `FnvHasher` of the fnv crate: made by `default`, given the bytes by
/// `write` and asked by `finish`. The hasher starts at the offset basis and
/// takes one FNV-1a step for each byte.
#[verifier::external_body]
fn fnv_hash(bytes: &[u8]) -> (hash: u64)
    ensures
        hash == fnv1a(bytes@),
{
    let mut hasher = fnv::FnvHasher::default();
    std::hash::Hasher::write(&mut hasher, bytes);
    std::hash::Hasher::finish(&hasher)
}

/// The name of the cache directory for a compiler and a configuration.
pub open spec fn spec_cache_dir_name(compiler_identity: Seq<char>, discriminator: Seq<char>) -> Seq<
    char,
> {
    "rustc-worker-"@ + decimal(fnv1a(encode_utf8(compiler_identity)) as nat) + "-"@
        + discriminator
}

/// Derives the name of the cache directory: `rustc-worker-`, the FNV-1a
/// hash of the identity's UTF-8 bytes in decimal, a hyphen, and the
/// discriminator.
pub fn cache_dir_name(compiler_identity: &str, discriminator: &str) -> (name: String)
    ensures
        name@ == spec_cache_dir_name(compiler_identity@, discriminator@),
{
    let hash = fnv_hash(compiler_identity.as_bytes());
    let digits = decimal_string(hash);
    let mut name = String::from_str("rustc-worker-");
    name.append(digits.as_str());
    name.append("-");
    name.append(discriminator);
    name
}

/// The identity enters the name as at most twenty digits and nothing else:
/// however long it is and whatever characters it holds, the name is the
/// fixed beginning, the digits, a hyphen and the discriminator.
pub proof fn lemma_cache_dir_name_shape(compiler_identity: Seq<char>, discriminator: Seq<char>)
    ensures
        ({
            let digits = decimal(fnv1a(encode_utf8(compiler_identity)) as nat);
            &&& spec_cache_dir_name(compiler_identity, discriminator) == "rustc-worker-"@ + digits
                + "-"@ + discriminator
            &&& 1 <= digits.len() <= 20
            &&& forall|i: int| 0 <= i < digits.len() ==> '0' <= #[trigger] digits[i] <= '9'
            &&& spec_cache_dir_name(compiler_identity, discriminator).len() <= 34
                + discriminator.len()
        }),
{
    lemma_decimal_shape_u64(fnv1a(encode_utf8(compiler_identity)));
    reveal_strlit("rustc-worker-");
    reveal_strlit("-");
}

/// Two discriminators give two names for the same compiler.
pub proof fn lemma_cache_dir_distinct(
    compiler_identity: Seq<char>,
    first: Seq<char>,
    second: Seq<char>,
)
    requires
        first != second,
    ensures
        spec_cache_dir_name(compiler_identity, first) != spec_cache_dir_name(
            compiler_identity,
            second,
        ),
{
    let head = "rustc-worker-"@ + decimal(fnv1a(encode_utf8(compiler_identity)) as nat) + "-"@;
    let a = head + first;
    let b = head + second;
    if a == b {
        assert(first.len() == second.len()) by {
            assert(a.len() == head.len() + first.len());
            assert(b.len() == head.len() + second.len());
        }
        assert forall|i: int| 0 <= i < first.len() implies first[i] == second[i] by {
            assert(a[head.len() + i] == first[i]);
            assert(b[head.len() + i] == second[i]);
        }
        assert(first =~= second);
    }
}

} // verus!

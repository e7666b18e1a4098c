//! Hashing of aspects, for use as a deduplication key.
//!
//! The hash is deliberately coarser than equality: it is computed from the
//! header and the discriminator tag only, never from the full payload.
//! Equal aspects share header and tag, so equal aspects hash equal — the
//! standard hash/equality contract holds — while two unequal aspects that
//! share a header and a case may legitimately collide. That asymmetry is a
//! performance choice of the model (a cheap hash, a full equality), not an
//! accident, and it is preserved here exactly.

use vstd::prelude::*;
use vstd::string::{StrSliceExecFns, StringExecFns};
use crate::aspect::{header_of, type_hint_of, AspectModel, EntryAspect};
use crate::codec::{ser_header, write_header};

verus! {

/// The offset basis of the 64-bit FNV-1a hash.
pub const FNV_OFFSET: u64 = 0xcbf29ce484222325;

/// The prime of the 64-bit FNV-1a hash.
pub const FNV_PRIME: u64 = 0x100000001b3;

/// One FNV-1a step: fold one character into the accumulator.
pub open spec fn fnv_step(acc: u64, c: char) -> u64 {
    vstd::wrapping::u64_specs::wrapping_mul(acc ^ (c as u64), FNV_PRIME)
}

/// FNV-1a over a sequence of characters, starting from `acc`.
pub open spec fn fnv1a_from(acc: u64, s: Seq<char>) -> u64
    decreases s.len(),
{
    if s.len() == 0 {
        acc
    } else {
        fnv1a_from(fnv_step(acc, s[0]), s.drop_first())
    }
}

/// The 64-bit FNV-1a hash of a sequence of characters.
pub open spec fn fnv1a(s: Seq<char>) -> u64 {
    fnv1a_from(FNV_OFFSET, s)
}

/// What an aspect hashes to: the FNV-1a hash of its header's canonical
/// encoding followed by its discriminator tag — a function of the header
/// and the case alone, never of the payload.
pub open spec fn hash_of(v: AspectModel) -> u64 {
    fnv1a(ser_header(header_of(v)) + type_hint_of(v))
}

fn fnv1a_chars(s: &str) -> (r: u64)
    ensures
        r == fnv1a(s@),
{
    let n = s.unicode_len();
    let mut acc: u64 = FNV_OFFSET;
    let mut i: usize = 0;
    assert(s@.skip(0) =~= s@);
    while i < n
        invariant
            n == s@.len(),
            i <= n,
            fnv1a(s@) == fnv1a_from(acc, s@.skip(i as int)),
        decreases n - i,
    {
        let c = s.get_char(i);
        proof {
            assert(s@.skip(i as int)[0] == s@[i as int]);
            assert(s@.skip(i as int).drop_first() =~= s@.skip(i as int + 1));
        }
        acc = (acc ^ (c as u64)).wrapping_mul(FNV_PRIME);
        i = i + 1;
    }
    proof {
        assert(s@.skip(n as int) =~= Seq::<char>::empty());
    }
    acc
}

impl EntryAspect {
    /// The aspect's hash value, computed from its header and its
    /// discriminator tag only.
    pub fn aspect_hash(&self) -> (r: u64)
        ensures
            r == hash_of(self@),
    {
        let mut buf = String::new();
        write_header(&mut buf, self.header());
        let hint = self.type_hint();
        buf.append(hint.as_str());
        fnv1a_chars(buf.as_str())
    }
}

/// The hash/equality contract: equal aspects hash equal.
pub proof fn lemma_hash_respects_eq(a: AspectModel, b: AspectModel)
    requires
        a == b,
    ensures
        hash_of(a) == hash_of(b),
{
}

/// The hash is coarser than equality by design: it depends only on the
/// header and the discriminator tag, so two aspects sharing both hash
/// equal even when their payloads differ.
pub proof fn lemma_hash_ignores_payload(a: AspectModel, b: AspectModel)
    requires
        header_of(a) == header_of(b),
        type_hint_of(a) == type_hint_of(b),
    ensures
        hash_of(a) == hash_of(b),
{
}

} // verus!

//! The local-binding shadow tracker and binding identities.
//!
//! Each definition of a local name advances that name's "shadow generation";
//! all occurrences of one conceptual binding (its definition and every later
//! reference up to the next shadowing definition) share the identity computed
//! from the name and that generation.

use vstd::prelude::*;
use crate::bytes::{bytes_eq, clone_bytes};

verus! {

/// A content hash of a byte string, kept below 2^32.
pub open spec fn spec_name_hash(s: Seq<u8>) -> int
    decreases s.len(),
{
    if s.len() == 0 {
        5381
    } else {
        (spec_name_hash(s.drop_last()) * 33 + s.last()) % 0x1_0000_0000
    }
}

/// The identity of one binding occurrence group: the name's hash in the upper
/// half, the shadow generation in the lower half.  Identities of the same
/// name differ whenever the generations differ.
pub open spec fn spec_binding_hash(name: Seq<u8>, generation: u32) -> int {
    spec_name_hash(name) * 0x1_0000_0000 + generation
}

/// The hash is always a 32-bit value.
pub proof fn lemma_name_hash_bounded(s: Seq<u8>)
    ensures
        0 <= spec_name_hash(s) < 0x1_0000_0000,
    decreases s.len(),
{
    if s.len() == 0 {
    } else {
        lemma_name_hash_bounded(s.drop_last());
    }
}

/// Binding identities determine the generation: equal identities mean equal
/// generations (and equal name hashes).
pub proof fn lemma_binding_hash_injective(n1: Seq<u8>, g1: u32, n2: Seq<u8>, g2: u32)
    requires
        spec_binding_hash(n1, g1) == spec_binding_hash(n2, g2),
    ensures
        g1 == g2,
        spec_name_hash(n1) == spec_name_hash(n2),
{
    lemma_name_hash_bounded(n1);
    lemma_name_hash_bounded(n2);
}

/// Distinct shadow generations of one name always get distinct identities.
pub proof fn lemma_distinct_generations_distinct_identities(name: Seq<u8>, g1: u32, g2: u32)
    requires
        g1 != g2,
    ensures
        spec_binding_hash(name, g1) != spec_binding_hash(name, g2),
{
    if spec_binding_hash(name, g1) == spec_binding_hash(name, g2) {
        lemma_binding_hash_injective(name, g1, name, g2);
    }
}

/// The executable identity hash.
pub fn binding_hash(name: &Vec<u8>, generation: u32) -> (r: u64)
    ensures
        r == spec_binding_hash(name@, generation),
{
    proof {
        lemma_name_hash_bounded(name@);
    }
    name_hash(name) as u64 * 0x1_0000_0000 + generation as u64
}

fn name_hash(name: &Vec<u8>) -> (r: u32)
    ensures
        r == spec_name_hash(name@),
{
    let mut h: u64 = 5381;
    let mut i: usize = 0;
    while i < name.len()
        invariant
            i <= name.len(),
            h == spec_name_hash(name@.take(i as int)),
            0 <= h < 0x1_0000_0000,
        decreases name.len() - i,
    {
        h = (h * 33 + name[i] as u64) % 0x1_0000_0000;
        proof {
            assert(name@.take(i + 1).drop_last() =~= name@.take(i as int));
            assert(name@.take(i + 1).last() == name@[i as int]);
        }
        i += 1;
    }
    proof {
        assert(name@.take(name@.len() as int) =~= name@);
    }
    h as u32
}

/// The generation recorded for `name` in a list of (name, generation)
/// entries; later entries shadow earlier ones; unrecorded names are at
/// generation 0.
pub open spec fn seq_gen(s: Seq<(Vec<u8>, u32)>, name: Seq<u8>) -> u32
    decreases s.len(),
{
    if s.len() == 0 {
        0
    } else if s.last().0@ == name {
        s.last().1
    } else {
        seq_gen(s.drop_last(), name)
    }
}

/// Maps each local name to its current shadow generation; cleared whenever
/// the walk enters a new function definition.
pub struct ShadowTracker {
    entries: Vec<(Vec<u8>, u32)>,
}

impl ShadowTracker {
    /// The generation currently recorded for `name` (0 when none is).
    pub closed spec fn spec_gen(self, name: Seq<u8>) -> u32 {
        seq_gen(self.entries@, name)
    }

    pub closed spec fn spec_is_empty(self) -> bool {
        self.entries@.len() == 0
    }

    pub fn new() -> (r: ShadowTracker)
        ensures
            r.spec_is_empty(),
    {
        ShadowTracker { entries: Vec::new() }
    }

    /// Forget every recorded generation.
    pub fn clear(&mut self)
        ensures
            final(self).spec_is_empty(),
    {
        self.entries = Vec::new();
    }

    /// The current generation of `name`, without advancing it.
    pub fn current(&self, name: &Vec<u8>) -> (r: u32)
        ensures
            r == self.spec_gen(name@),
    {
        let mut i: usize = self.entries.len();
        proof {
            assert(self.entries@.take(self.entries@.len() as int) =~= self.entries@);
        }
        while i > 0
            invariant
                i <= self.entries@.len(),
                seq_gen(self.entries@, name@) == seq_gen(self.entries@.take(i as int), name@),
            decreases i,
        {
            i -= 1;
            if bytes_eq(&self.entries[i].0, name) {
                proof {
                    assert(self.entries@.take(i + 1).last() == self.entries@[i as int]);
                }
                return self.entries[i].1;
            }
            proof {
                assert(self.entries@.take(i + 1).drop_last() =~= self.entries@.take(i as int));
            }
        }
        proof {
            assert(self.entries@.take(0) =~= Seq::<(Vec<u8>, u32)>::empty());
        }
        0
    }

    /// Record one more definition of `name`: its generation advances by one
    /// (staying put once it can no longer be represented), every other name
    /// keeps its generation.
    pub fn advance(&mut self, name: &Vec<u8>) -> (r: u32)
        ensures
            old(self).spec_gen(name@) < u32::MAX ==> r == old(self).spec_gen(name@) + 1,
            old(self).spec_gen(name@) == u32::MAX ==> r == u32::MAX,
            final(self).spec_gen(name@) == r,
            forall|other: Seq<u8>| other != name@ ==> final(self).spec_gen(other) == old(self).spec_gen(other),
            !final(self).spec_is_empty(),
    {
        let g0 = self.current(name);
        let g = if g0 < u32::MAX {
            g0 + 1
        } else {
            g0
        };
        let entry = (clone_bytes(name), g);
        proof {
            assert(entry.0@ == name@);
        }
        self.entries.push(entry);
        proof {
            assert(self.entries@.last() == entry);
            assert(self.entries@.drop_last() =~= old(self).entries@);
        }
        g
    }

    /// An empty tracker records generation 0 for every name: a definition
    /// right after a reset is always generation 1, whatever came before the
    /// reset.
    pub proof fn lemma_empty_gen_zero(self, name: Seq<u8>)
        requires
            self.spec_is_empty(),
        ensures
            self.spec_gen(name) == 0,
    {
    }
}

} // verus!

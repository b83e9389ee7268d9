//! Packing several resources into one memory allocation.
use vstd::prelude::*;

use crate::align::{align, align_up_spec, lemma_align_up};

verus! {

/// What one resource needs from the memory it is bound to.
#[derive(Copy, Clone, Debug, PartialEq, Eq, Structural)]
pub struct Requirement {
    pub size: u64,
    pub alignment: u64,
    /// Memory types the resource can live in, one bit per type index
    pub type_bits: u32,
}

/// Where each resource goes in a shared allocation, how large it is, and which memory types
/// suit every resource.
pub struct Layout {
    pub offsets: Vec<u64>,
    pub size: u64,
    pub type_bits: u32,
}

/// End of the first `n` resources packed back to back, each at its alignment.
pub open spec fn packed_end(reqs: Seq<Requirement>, n: int) -> int
    decreases n,
{
    if n <= 0 {
        0
    } else {
        align_up_spec(packed_end(reqs, n - 1), reqs[n - 1].alignment as int) + reqs[n - 1].size
    }
}

/// Memory types allowed by each of the first `n` resources.
pub open spec fn common_bits(reqs: Seq<Requirement>, n: int) -> u32
    decreases n,
{
    if n <= 0 {
        !0u32
    } else {
        common_bits(reqs, n - 1) & reqs[n - 1].type_bits
    }
}

/// Packing more resources never ends earlier.
proof fn lemma_packed_end_grows(reqs: Seq<Requirement>, i: int, j: int)
    requires
        0 <= i <= j <= reqs.len(),
        forall|k: int| 0 <= k < reqs.len() ==> #[trigger] reqs[k].alignment > 0,
    ensures
        0 <= packed_end(reqs, i) <= packed_end(reqs, j),
    decreases j,
{
    if i < j {
        lemma_packed_end_grows(reqs, i, j - 1);
        lemma_align_up(packed_end(reqs, j - 1), reqs[j - 1].alignment as int);
    } else if j > 0 {
        lemma_packed_end_grows(reqs, j - 1, j - 1);
        lemma_align_up(packed_end(reqs, j - 1), reqs[j - 1].alignment as int);
    }
}

/// Place each resource at the next offset that suits its alignment, after the one before it.
/// Returns `None` when the total does not fit in 64 bits.
pub fn pack(reqs: &Vec<Requirement>) -> (r: Option<Layout>)
    requires
        forall|k: int| 0 <= k < reqs@.len() ==> #[trigger] reqs@[k].alignment > 0,
    ensures
        (r is Some) == (packed_end(reqs@, reqs@.len() as int) <= u64::MAX),
        r matches Some(l) ==> {
            &&& l.offsets@.len() == reqs@.len()
            &&& forall|k: int|
                0 <= k < reqs@.len() ==> #[trigger] l.offsets@[k] == align_up_spec(
                    packed_end(reqs@, k),
                    reqs@[k].alignment as int,
                )
            &&& l.size == packed_end(reqs@, reqs@.len() as int)
            &&& l.type_bits == common_bits(reqs@, reqs@.len() as int)
        },
{
    let mut offsets: Vec<u64> = Vec::new();
    let mut total: u64 = 0;
    let mut type_bits: u32 = !0u32;
    let mut i: usize = 0;
    while i < reqs.len()
        invariant
            forall|k: int| 0 <= k < reqs@.len() ==> #[trigger] reqs@[k].alignment > 0,
            i <= reqs@.len(),
            total == packed_end(reqs@, i as int),
            type_bits == common_bits(reqs@, i as int),
            offsets@.len() == i,
            forall|k: int|
                0 <= k < i ==> #[trigger] offsets@[k] == align_up_spec(
                    packed_end(reqs@, k),
                    reqs@[k].alignment as int,
                ),
        decreases reqs@.len() - i,
    {
        let req = reqs[i];
        proof {
            lemma_align_up(total as int, req.alignment as int);
            lemma_packed_end_grows(reqs@, i + 1, reqs@.len() as int);
        }
        let misalignment = total % req.alignment;
        let padding = if misalignment == 0 {
            0
        } else {
            req.alignment - misalignment
        };
        if total > u64::MAX - padding {
            assert(packed_end(reqs@, i + 1) > u64::MAX);
            return None;
        }
        let offset = align(total, req.alignment);
        if offset > u64::MAX - req.size {
            assert(packed_end(reqs@, i + 1) > u64::MAX);
            return None;
        }
        offsets.push(offset);
        total = offset + req.size;
        type_bits = type_bits & req.type_bits;
        i = i + 1;
    }
    Some(Layout { offsets, size: total, type_bits })
}

} // verus!

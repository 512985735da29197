//! Memory address spaces of an instance.
use vstd::prelude::*;

verus! {

/// A named address space.
#[derive(Debug, Clone)]
pub struct Space {
    pub cannonical_msn: Option<u64>,
    pub description: Option<String>,
    pub endianness: Option<String>,
    pub max_addr: Option<u64>,
    pub min_addr: Option<u64>,
    pub name: String,
    pub id: u64,
}

/// The ids of `spaces`, in order.
pub open spec fn ids_of(spaces: Seq<Space>) -> Seq<u64> {
    spaces.map_values(|s: Space| s.id)
}

/// The ids of `spaces`, in order.
pub fn space_ids(spaces: &Vec<Space>) -> (r: Vec<u64>)
    ensures
        r@ == ids_of(spaces@),
{
    let mut out: Vec<u64> = Vec::new();
    let mut i: usize = 0;
    while i < spaces.len()
        invariant
            0 <= i <= spaces@.len(),
            out@ == ids_of(spaces@.take(i as int)),
        decreases spaces@.len() - i,
    {
        out.push(spaces[i].id);
        i = i + 1;
        assert(out@ =~= ids_of(spaces@.take(i as int)));
    }
    assert(spaces@.take(spaces@.len() as int) =~= spaces@);
    out
}

} // verus!

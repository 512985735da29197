//! Components of the simulator and their lookup by name.
use crate::cli::{common_prefix_len, shared_prefix};
use crate::gdb::{string_bytes, text};
use vstd::prelude::*;

verus! {

/// A named component inside the simulator.
#[derive(Debug, Clone)]
pub struct Instance {
    pub id: u32,
    pub name: String,
}

/// What registering this client as an instance returned.
#[derive(Debug, Clone)]
pub struct RegisterInstanceRes {
    pub name: String,
    pub id: u32,
}

/// `s` without its leading dots.
pub open spec fn trim_dots(s: Seq<u8>) -> Seq<u8>
    decreases s.len(),
{
    if s.len() > 0 && s[0] == 46 {
        trim_dots(s.drop_first())
    } else {
        s
    }
}

/// `s` without its leading dots.
pub fn trim_leading_dots(s: &[u8]) -> (r: Vec<u8>)
    ensures
        r@ == trim_dots(s@),
{
    let mut i: usize = 0;
    assert(s@.skip(0) =~= s@);
    while i < s.len() && s[i] == 46
        invariant
            0 <= i <= s@.len(),
            trim_dots(s@.skip(i as int)) == trim_dots(s@),
        decreases s@.len() - i,
    {
        assert(s@.skip(i as int).drop_first() =~= s@.skip(i as int + 1));
        i = i + 1;
    }
    let r = crate::wire::slice_range(s, i, s.len());
    assert(r@ =~= s@.skip(i as int));
    r
}

/// The instance named `name` once the prefix that all names share and
/// the leading dots are cut off.
pub open spec fn names_match(name: Seq<u8>, prefix: int, wanted: Seq<u8>) -> bool {
    prefix <= name.len() && trim_dots(name.skip(prefix)) == trim_dots(wanted)
}

/// The names of `instances`, in order.
pub open spec fn names_of(instances: Seq<Instance>) -> Seq<String> {
    instances.map_values(|i: Instance| i.name)
}

/// The first instance whose name, without the prefix that all names share
/// and without leading dots, is `wanted` without its leading dots.
pub fn find_instance_in(instances: &Vec<Instance>, wanted: &[u8]) -> (r: Option<usize>)
    ensures
        match r {
            Some(i) => {
                &&& i < instances@.len()
                &&& names_match(
                    text(&instances@[i as int].name),
                    shared_prefix(names_of(instances@)),
                    wanted@,
                )
                &&& forall|j: int|
                    0 <= j < i ==> !names_match(
                        text(&(#[trigger] instances@[j]).name),
                        shared_prefix(names_of(instances@)),
                        wanted@,
                    )
            },
            None => forall|j: int|
                0 <= j < instances@.len() ==> !names_match(
                    text(&(#[trigger] instances@[j]).name),
                    shared_prefix(names_of(instances@)),
                    wanted@,
                ),
        },
{
    let mut names: Vec<String> = Vec::new();
    let mut k: usize = 0;
    while k < instances.len()
        invariant
            0 <= k <= instances@.len(),
            names@ == names_of(instances@.take(k as int)),
        decreases instances@.len() - k,
    {
        names.push(instances[k].name.clone());
        k = k + 1;
        assert(names@ =~= names_of(instances@.take(k as int)));
    }
    assert(instances@.take(instances@.len() as int) =~= instances@);
    let prefix = common_prefix_len(&names);
    let want = trim_leading_dots(wanted);
    let mut i: usize = 0;
    while i < instances.len()
        invariant
            0 <= i <= instances@.len(),
            prefix == shared_prefix(names_of(instances@)),
            want@ == trim_dots(wanted@),
            forall|j: int|
                0 <= j < i ==> !names_match(
                    text(&(#[trigger] instances@[j]).name),
                    prefix as int,
                    wanted@,
                ),
        decreases instances@.len() - i,
    {
        let name = string_bytes(&instances[i].name);
        if prefix <= name.len() {
            let tail = crate::wire::slice_range(name, prefix, name.len());
            assert(tail@ =~= name@.skip(prefix as int));
            let short = trim_leading_dots(tail.as_slice());
            if crate::wire::bytes_eq(short.as_slice(), want.as_slice()) {
                return Some(i);
            }
        }
        i = i + 1;
    }
    None
}

} // verus!

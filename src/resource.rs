//! Registers and parameters that an instance exposes.
use crate::gdb::{string_bytes, text};
use vstd::prelude::*;

verus! {

/// One resource of an instance: a register when it has no parameter info.
#[derive(Debug, Clone)]
pub struct ResourceInfo {
    pub bit_width: u64,
    pub cname: String,
    pub description: Option<String>,
    pub name: String,
    pub parent_id: Option<u64>,
    pub id: u64,
    /// Whether the resource is a configuration parameter.
    pub is_parameter: bool,
    pub rw_mode: Option<String>,
}

/// The words that a resource read returned.
#[derive(Debug, Clone, PartialEq, Eq)]
pub struct ResourceRead {
    pub data: Vec<u64>,
}

/// The id of the last resource of `rs` named `name`.
pub open spec fn last_named(rs: Seq<ResourceInfo>, name: Seq<u8>) -> Option<u64>
    decreases rs.len(),
{
    if rs.len() == 0 {
        None
    } else if text(&rs.last().name) == name {
        Some(rs.last().id)
    } else {
        last_named(rs.drop_last(), name)
    }
}

/// The id of the resource named `name`; where several have that name, the
/// last one.
pub fn find_resource(resources: &Vec<ResourceInfo>, name: &[u8]) -> (r: Option<u64>)
    ensures
        r == last_named(resources@, name@),
{
    let mut found: Option<u64> = None;
    let mut i: usize = 0;
    while i < resources.len()
        invariant
            0 <= i <= resources@.len(),
            found == last_named(resources@.take(i as int), name@),
        decreases resources@.len() - i,
    {
        assert(resources@.take(i as int + 1).drop_last() =~= resources@.take(i as int));
        if crate::wire::bytes_eq(string_bytes(&resources[i].name), name) {
            found = Some(resources[i].id);
        }
        i = i + 1;
    }
    assert(resources@.take(resources@.len() as int) =~= resources@);
    found
}

/// `PC_MEMSPACE`, the resource that holds the address space of the program
/// counter.
pub open spec fn pc_memspace() -> Seq<u8> {
    seq![80u8, 67u8, 95u8, 77u8, 69u8, 77u8, 83u8, 80u8, 65u8, 67u8, 69u8]
}

/// The id of the `PC_MEMSPACE` resource.
pub fn memspace_resource(resources: &Vec<ResourceInfo>) -> (r: Option<u64>)
    ensures
        r == last_named(resources@, pc_memspace()),
{
    let name: Vec<u8> = vec![80u8, 67u8, 95u8, 77u8, 69u8, 77u8, 83u8, 80u8, 65u8, 67u8, 69u8];
    assert(name@ =~= pc_memspace());
    find_resource(resources, name.as_slice())
}

/// The first word of a read, if it returned any.
pub fn first_word(read: &ResourceRead) -> (r: Option<u64>)
    ensures
        read.data@.len() > 0 ==> r == Some(read.data@[0]),
        read.data@.len() == 0 ==> r is None,
{
    if read.data.len() > 0 {
        Some(read.data[0])
    } else {
        None
    }
}

} // verus!

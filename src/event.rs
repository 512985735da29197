//! Event sources of an instance.
use vstd::prelude::*;

verus! {

/// One field of the events of a source.
#[derive(Debug, Clone)]
pub struct Field {
    pub name: String,
    pub typ: String,
    pub size: u64,
    pub description: Option<String>,
}

/// A named class of events that an instance can emit.
#[derive(Debug, Clone)]
pub struct SourceInfo {
    pub description: Option<String>,
    pub name: String,
    pub id: u32,
    pub fields: Vec<Field>,
}

} // verus!

use vstd::prelude::*;

pub mod identity;
pub mod text;
pub mod parser;
pub mod corpus;
pub mod page;
pub mod graph;
pub mod search;
pub mod ingest;

verus! {

} // verus!

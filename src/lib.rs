// Local identity and workflow layer of a command-line mail client.
//
// `query` parses the boolean query language, `filter` lowers it to the server's search
// expression, and `state` holds the stores that give messages stable shadow IDs and
// carry selections, staged drafts and query history between commands.
use vstd::prelude::*;

pub mod config;
pub mod draft;
pub mod fields;
pub mod filter;
pub mod folder;
pub mod message;
pub mod query;
pub mod state;
pub mod util;

verus! {

} // verus!

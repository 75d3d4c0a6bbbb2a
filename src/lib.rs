//! A registry of grammar repositories, each a name, a git source and an
//! optional pinned commit, and the engine that brings local working copies
//! in line with it: the registry's merge rules, the choice of entries to
//! synchronise, and the steps of one entry's synchronisation.
use vstd::prelude::*;

pub mod commit;
pub mod key_order;
pub mod language;
pub mod manifest;
pub mod laws;
pub mod registry;
pub mod sync;

verus! {

} // verus!

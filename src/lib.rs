//! The index layer of an object database: which pack indices and loose
//! object directories make up the store, versioned snapshots of that state,
//! and the decision of when to reconcile it with the filesystem. Beside it,
//! what repositories around the store decide: the pathspec magic parser,
//! the credential-helper actions, and the reading of a few core settings.
use vstd::prelude::*;

pub mod bytes;
pub mod config;
pub mod credentials;
pub mod laws;
pub mod pathspec;
pub mod store;

verus! {

} // verus!

//! Format markers for the structural text formats that source adapters can
//! parse.  Parsing itself is a collaborator's job: an adapter reads bytes,
//! parses them with the format its marker names, and hands the library a
//! complete [`Value`][crate::value::Value] snapshot.

use vstd::prelude::*;

verus! {

/// The TOML format marker.
#[derive(Debug)]
pub struct Toml;

} // verus!

//! The commands of the command line tool.
use vstd::prelude::*;

verus! {

/// A command: build the hack, or create a new one with the given name.
pub enum Opt {
    Build {},
    New { name: String },
}

} // verus!

use vstd::prelude::*;

verus! {

/// Why loading a glTF asset failed.
#[derive(Debug)]
pub enum Error {
    /// The file could not be read or parsed.
    Load(String),
    /// The file uses something this renderer does not handle.
    Support(String),
}

} // verus!

//! The supertrait that closes the set of variable spaces.

use vstd::prelude::*;

verus! {

/// Sealing supertrait of [`super::Space`]: only the three markers implement it.
pub trait Sealed {

}

} // verus!

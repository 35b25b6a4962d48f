//! Results of fallible operations as plain mathematical data.

use vstd::prelude::*;

verus! {

/// What a result holds, with a value in it taken as what it is.
pub open spec fn viewed<T: View, E>(made: Result<T, E>) -> Result<T::V, E> {
    match made {
        Ok(value) => Ok(value@),
        Err(e) => Err(e),
    }
}

} // verus!

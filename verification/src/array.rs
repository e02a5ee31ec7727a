//! Turning a vector of known length into a fixed-size array.

use vstd::prelude::*;

verus! {

/// Calls `<[T; N] as TryFrom<Vec<T>>>::try_from`. As std documents it, the
/// conversion succeeds exactly when the vector holds `N` items, and then the
/// array holds them in order; otherwise the vector comes back unchanged.
#[verifier::external_body]
fn vec_try_into_array<T, const N: usize>(v: Vec<T>) -> (r: Result<[T; N], Vec<T>>)
    ensures
        match r {
            Ok(a) => v@.len() == N && a@ == v@,
            Err(w) => v@.len() != N && w@ == v@,
        },
{
    <[T; N]>::try_from(v)
}

/// Moves the `N` items of `v`, in order, into an array of length `N`.
/// The vector must hold exactly `N` items.
pub fn convert_vec_to_array<T, const N: usize>(v: Vec<T>) -> (a: [T; N])
    requires
        v@.len() == N,
    ensures
        a@ == v@,
{
    match vec_try_into_array(v) {
        Ok(a) => a,
        Err(_) => vstd::pervasive::unreached(),
    }
}

} // verus!

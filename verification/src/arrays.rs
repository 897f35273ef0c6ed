//! The fixed-capacity vectors of `arrayvec` that hold a name's characters and
//! the creature records.
//!
//! Verus does not look inside an `ArrayVec`. What one holds is named by a
//! function here, and each method that the library calls has a wrapper that
//! says what the method does to it.

use crate::active::ActivePokemon;
use crate::encoding::PmdChar;
use crate::stored::StoredPokemon;
use arrayvec::ArrayVec;
use arrayvec::CapacityError;
use vstd::prelude::*;

verus! {

/// Trusted: `arrayvec::ArrayVec`, as an opaque type.
#[verifier::external_type_specification]
#[verifier::external_body]
#[verifier::reject_recursive_types(T)]
pub struct ExArrayVec<T, const CAP: usize>(ArrayVec<T, CAP>);

/// Trusted: `arrayvec::CapacityError`, as an opaque type.
#[verifier::external_type_specification]
#[verifier::external_body]
#[verifier::reject_recursive_types(T)]
pub struct ExCapacityError<T>(CapacityError<T>);

/// The characters that a name's vector holds, in order.
pub uninterp spec fn chars_in(v: ArrayVec<PmdChar, 10>) -> Seq<PmdChar>;

/// The stored creatures that a vector holds, in order.
pub uninterp spec fn stored_in(v: ArrayVec<StoredPokemon, 720>) -> Seq<StoredPokemon>;

/// The active creatures that a vector holds, in order.
pub uninterp spec fn active_in(v: ArrayVec<ActivePokemon, 4>) -> Seq<ActivePokemon>;

/// Trusted: `ArrayVec::new`. Claimed: the new vector is empty.
#[verifier::external_body]
pub(crate) fn chars_new() -> (v: ArrayVec<PmdChar, 10>)
    ensures
        chars_in(v) == Seq::<PmdChar>::empty(),
{
    ArrayVec::new()
}

/// Trusted: `ArrayVec::len`. Claimed: the result is the number of characters
/// held, which is never above the capacity of ten.
#[verifier::external_body]
pub(crate) fn chars_len(v: &ArrayVec<PmdChar, 10>) -> (n: usize)
    ensures
        n == chars_in(*v).len(),
        n <= 10,
{
    v.len()
}

/// Trusted: indexing an `ArrayVec`, which is indexing the slice of what it
/// holds. Claimed: the result is the character at `index`. It panics on an
/// index past the end.
#[verifier::external_body]
pub(crate) fn chars_get(v: &ArrayVec<PmdChar, 10>, index: usize) -> (c: PmdChar)
    requires
        index < chars_in(*v).len(),
    ensures
        c == chars_in(*v)[index as int],
{
    v[index]
}

/// Trusted: `ArrayVec::try_push`. Claimed: with fewer than ten characters
/// held, `c` is added at the end and the result is `Ok`; with ten, nothing
/// changes and the result is an error.
#[verifier::external_body]
pub(crate) fn chars_try_push(v: &mut ArrayVec<PmdChar, 10>, c: PmdChar) -> (r: Result<
    (),
    CapacityError<PmdChar>,
>)
    ensures
        r is Ok <==> chars_in(*old(v)).len() < 10,
        r is Ok ==> chars_in(*final(v)) == chars_in(*old(v)).push(c),
        r is Err ==> chars_in(*final(v)) == chars_in(*old(v)),
{
    v.try_push(c)
}

/// Trusted: `Clone::clone` of `ArrayVec`. Claimed: the copy holds the same
/// characters.
#[verifier::external_body]
pub(crate) fn chars_clone(v: &ArrayVec<PmdChar, 10>) -> (copy: ArrayVec<PmdChar, 10>)
    ensures
        chars_in(copy) == chars_in(*v),
{
    v.clone()
}

/// Trusted: `ArrayVec::new`. Claimed: the new vector is empty.
#[verifier::external_body]
pub(crate) fn stored_new() -> (v: ArrayVec<StoredPokemon, 720>)
    ensures
        stored_in(v) == Seq::<StoredPokemon>::empty(),
{
    ArrayVec::new()
}

/// Trusted: `ArrayVec::len`. Claimed: the result is the number of creatures
/// held, which is never above the capacity of 720.
#[verifier::external_body]
pub(crate) fn stored_len(v: &ArrayVec<StoredPokemon, 720>) -> (n: usize)
    ensures
        n == stored_in(*v).len(),
        n <= 720,
{
    v.len()
}

/// Trusted: indexing an `ArrayVec`, which is indexing the slice of what it
/// holds. Claimed: the result is the creature at `index`. It panics on an
/// index past the end.
#[verifier::external_body]
pub(crate) fn stored_get(v: &ArrayVec<StoredPokemon, 720>, index: usize) -> (p: &StoredPokemon)
    requires
        index < stored_in(*v).len(),
    ensures
        *p == stored_in(*v)[index as int],
{
    &v[index]
}

/// Trusted: `ArrayVec::push`. Claimed: `p` is added at the end. It panics on
/// a full vector.
#[verifier::external_body]
pub(crate) fn stored_push(v: &mut ArrayVec<StoredPokemon, 720>, p: StoredPokemon)
    requires
        stored_in(*old(v)).len() < 720,
    ensures
        stored_in(*final(v)) == stored_in(*old(v)).push(p),
{
    v.push(p)
}

/// Trusted: assigning to an index of an `ArrayVec`, which assigns to the
/// slice of what it holds. Claimed: the creature at `index` becomes `p`, and
/// no other changes. It panics on an index past the end.
#[verifier::external_body]
pub(crate) fn stored_set(v: &mut ArrayVec<StoredPokemon, 720>, index: usize, p: StoredPokemon)
    requires
        index < stored_in(*old(v)).len(),
    ensures
        stored_in(*final(v)) == stored_in(*old(v)).update(index as int, p),
{
    v[index] = p
}

/// Trusted: `ArrayVec::new`. Claimed: the new vector is empty.
#[verifier::external_body]
pub(crate) fn active_new() -> (v: ArrayVec<ActivePokemon, 4>)
    ensures
        active_in(v) == Seq::<ActivePokemon>::empty(),
{
    ArrayVec::new()
}

/// Trusted: `ArrayVec::len`. Claimed: the result is the number of creatures
/// held, which is never above the capacity of four.
#[verifier::external_body]
pub(crate) fn active_len(v: &ArrayVec<ActivePokemon, 4>) -> (n: usize)
    ensures
        n == active_in(*v).len(),
        n <= 4,
{
    v.len()
}

/// Trusted: indexing an `ArrayVec`, which is indexing the slice of what it
/// holds. Claimed: the result is the creature at `index`. It panics on an
/// index past the end.
#[verifier::external_body]
pub(crate) fn active_get(v: &ArrayVec<ActivePokemon, 4>, index: usize) -> (p: &ActivePokemon)
    requires
        index < active_in(*v).len(),
    ensures
        *p == active_in(*v)[index as int],
{
    &v[index]
}

/// Trusted: `ArrayVec::push`. Claimed: `p` is added at the end. It panics on
/// a full vector.
#[verifier::external_body]
pub(crate) fn active_push(v: &mut ArrayVec<ActivePokemon, 4>, p: ActivePokemon)
    requires
        active_in(*old(v)).len() < 4,
    ensures
        active_in(*final(v)) == active_in(*old(v)).push(p),
{
    v.push(p)
}

/// Trusted: assigning to an index of an `ArrayVec`, which assigns to the
/// slice of what it holds. Claimed: the creature at `index` becomes `p`, and
/// no other changes. It panics on an index past the end.
#[verifier::external_body]
pub(crate) fn active_set(v: &mut ArrayVec<ActivePokemon, 4>, index: usize, p: ActivePokemon)
    requires
        index < active_in(*old(v)).len(),
    ensures
        active_in(*final(v)) == active_in(*old(v)).update(index as int, p),
{
    v[index] = p
}

} // verus!

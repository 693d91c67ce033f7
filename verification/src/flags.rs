//! Access to the packed flags of `bool_vec::BoolVec`.

use bool_vec::BoolVec;
use vstd::prelude::*;

verus! {

#[verifier::external_type_specification]
#[verifier::external_body]
pub struct ExBoolVec(BoolVec);

/// The flags held by a `BoolVec`, in order.
pub uninterp spec fn flags_of(flags: BoolVec) -> Seq<bool>;

/// `BoolVec::from`: the new vector holds the given booleans in the given order.
#[verifier::external_body]
pub(crate) fn flags_from(values: &[bool]) -> (flags: BoolVec)
    ensures
        flags_of(flags) == values@,
{
    BoolVec::from(values)
}

/// `BoolVec::get`: the flag at the index, or `None` where the index is not below the length.
#[verifier::external_body]
pub(crate) fn flag_get(flags: &BoolVec, index: usize) -> (flag: Option<bool>)
    ensures
        flag == if index < flags_of(*flags).len() {
            Some(flags_of(*flags)[index as int])
        } else {
            None
        },
{
    flags.get(index)
}

/// `BoolVec::set`: replaces the flag at the index; where the index is not below the length,
/// changes nothing and returns `None`.
#[verifier::external_body]
pub(crate) fn flag_set(flags: &mut BoolVec, index: usize, value: bool) -> (done: Option<()>)
    ensures
        done is Some <==> index < flags_of(*old(flags)).len(),
        flags_of(*final(flags)) == if index < flags_of(*old(flags)).len() {
            flags_of(*old(flags)).update(index as int, value)
        } else {
            flags_of(*old(flags))
        },
{
    flags.set(index, value)
}

} // verus!

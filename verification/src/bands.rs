//! The shared, copy-on-write list that a wrap profile keeps its bands in.
use ecow::EcoVec;
use vstd::prelude::*;

use crate::wrap::ExclusionBand;

verus! {

/// The clone-on-write vector of the `ecow` crate.
#[verifier::external_type_specification]
#[verifier::external_body]
#[verifier::reject_recursive_types(T)]
pub struct ExEcoVec<T>(EcoVec<T>);

/// The bands that a list holds, in order.
pub uninterp spec fn band_seq(list: EcoVec<ExclusionBand>) -> Seq<ExclusionBand>;

/// Calls `EcoVec::new`: the new list holds nothing.
#[verifier::external_body]
pub(crate) fn no_bands() -> (list: EcoVec<ExclusionBand>)
    ensures
        band_seq(list) == Seq::<ExclusionBand>::empty(),
{
    EcoVec::new()
}

/// Calls `EcoVec::from` on an array: the new list holds exactly the array's one element.
#[verifier::external_body]
pub(crate) fn one_band(band: ExclusionBand) -> (list: EcoVec<ExclusionBand>)
    ensures
        band_seq(list) == seq![band],
{
    EcoVec::from([band])
}

/// Calls `EcoVec::is_empty`: whether the list holds nothing.
#[verifier::external_body]
pub(crate) fn has_no_bands(list: &EcoVec<ExclusionBand>) -> (result: bool)
    ensures
        result == (band_seq(*list).len() == 0),
{
    list.is_empty()
}

/// Calls `EcoVec::as_slice`: all that the list holds, in order.
#[verifier::external_body]
pub(crate) fn band_slice(list: &EcoVec<ExclusionBand>) -> (slice: &[ExclusionBand])
    ensures
        slice@ == band_seq(*list),
{
    list.as_slice()
}

/// Calls `EcoVec::clone`: the new list shares the storage of the old one, so it holds the same.
#[verifier::external_body]
pub(crate) fn clone_bands(list: &EcoVec<ExclusionBand>) -> (result: EcoVec<ExclusionBand>)
    ensures
        band_seq(result) == band_seq(*list),
{
    list.clone()
}

} // verus!

//! The two bijective maps of the `bimap` crate that the lowering fills and
//! reads, and what is taken on trust about them.
//!
//! The functions of this file are not proved. Each makes one call into
//! `bimap`, and its contract says what that call does to the pairs of the map.

use bimap::{BiBTreeMap, BiHashMap};
use vstd::prelude::*;

verus! {

/// `bimap::BiBTreeMap`, a bijective map that is walked in the order of its
/// left values. The verifier sees nothing of what is inside it.
#[verifier::external_type_specification]
#[verifier::external_body]
#[verifier::reject_recursive_types(L)]
#[verifier::reject_recursive_types(R)]
pub struct ExBiBTreeMap<L, R>(BiBTreeMap<L, R>);

/// `bimap::BiHashMap`, a bijective map that is walked in no fixed order.
/// The verifier sees nothing of what is inside it.
#[verifier::external_type_specification]
#[verifier::external_body]
#[verifier::reject_recursive_types(L)]
#[verifier::reject_recursive_types(R)]
#[verifier::reject_recursive_types(LS)]
#[verifier::reject_recursive_types(RS)]
pub struct ExBiHashMap<L, R, LS, RS>(BiHashMap<L, R, LS, RS>);

/// The pairs of an ordered bimap from addresses to signatures: each address
/// with the signature it is paired with.
pub uninterp spec fn layout_pairs(layout: BiBTreeMap<u16, String>) -> Map<u16, Seq<char>>;

/// The pairs of a hashed bimap from pool indices to signatures: each index
/// with the signature it is paired with.
pub uninterp spec fn ref_pairs(refs: BiHashMap<u16, String>) -> Map<u16, Seq<char>>;

/// The pairs of a bimap that holds none.
pub open spec fn no_pairs() -> Map<u16, Seq<char>> {
    Map::empty()
}

/// The pairs of a bimap after `left` was paired with `right`: the pair that
/// `left` was in has gone, and so has the pair that `right` was in.
pub open spec fn paired(pairs: Map<u16, Seq<char>>, left: u16, right: Seq<char>) -> Map<
    u16,
    Seq<char>,
> {
    Map::new(
        |l: u16| l == left || (pairs.contains_key(l) && pairs[l] != right),
        |l: u16|
            if l == left {
                right
            } else {
                pairs[l]
            },
    )
}

/// No right value is paired with two left values.
pub open spec fn one_to_one(pairs: Map<u16, Seq<char>>) -> bool {
    forall|a: u16, b: u16|
        pairs.contains_key(a) && pairs.contains_key(b) && #[trigger] pairs[a]
            == #[trigger] pairs[b] ==> a == b
}

/// Pairing keeps the pairs one to one.
pub proof fn lemma_paired_one_to_one(pairs: Map<u16, Seq<char>>, left: u16, right: Seq<char>)
    requires
        one_to_one(pairs),
    ensures
        one_to_one(paired(pairs, left, right)),
{
    let after = paired(pairs, left, right);
    assert forall|a: u16, b: u16|
        after.contains_key(a) && after.contains_key(b) && #[trigger] after[a]
            == #[trigger] after[b] implies a == b by {
        if a != left && b != left {
            assert(pairs[a] == pairs[b]);
        }
    }
}

/// `BiBTreeMap::new`, which makes a bimap without pairs.
#[verifier::external_body]
pub(crate) fn layout_new() -> (layout: BiBTreeMap<u16, String>)
    ensures
        layout_pairs(layout) == no_pairs(),
{
    BiBTreeMap::new()
}

/// `BiBTreeMap::insert`, which removes the pair with the left value `addr`
/// and the pair with the right value `name`, where there are such, and then
/// adds the pair of the two.
#[verifier::external_body]
pub(crate) fn layout_insert(layout: &mut BiBTreeMap<u16, String>, addr: u16, name: String)
    ensures
        layout_pairs(*final(layout)) == paired(layout_pairs(*old(layout)), addr, name@),
{
    layout.insert(addr, name);
}

/// `BiBTreeMap::iter`, which hands out every pair once, in ascending order
/// of the left values.
#[verifier::external_body]
pub(crate) fn layout_entries(layout: &BiBTreeMap<u16, String>) -> (entries: Vec<(u16, String)>)
    ensures
        forall|i: int, j: int|
            0 <= i < j < entries@.len() ==> (#[trigger] entries@[i]).0 < (#[trigger] entries@[j]).0,
        forall|i: int|
            0 <= i < entries@.len() ==> layout_pairs(*layout).contains_pair(
                (#[trigger] entries@[i]).0,
                entries@[i].1@,
            ),
        forall|addr: u16| #[trigger]
            layout_pairs(*layout).contains_key(addr) ==> exists|i: int|
                0 <= i < entries@.len() && (#[trigger] entries@[i]).0 == addr,
{
    layout.iter().map(|(addr, name)| (*addr, name.clone())).collect()
}

/// `BiHashMap::new`, which makes a bimap without pairs.
#[verifier::external_body]
pub(crate) fn refs_new() -> (refs: BiHashMap<u16, String>)
    ensures
        ref_pairs(refs) == no_pairs(),
{
    BiHashMap::new()
}

/// `BiHashMap::insert`, which removes the pair with the left value `index`
/// and the pair with the right value `signature`, where there are such, and
/// then adds the pair of the two.
#[verifier::external_body]
pub(crate) fn refs_insert(refs: &mut BiHashMap<u16, String>, index: u16, signature: String)
    ensures
        ref_pairs(*final(refs)) == paired(ref_pairs(*old(refs)), index, signature@),
{
    refs.insert(index, signature);
}

/// `BiHashMap::iter`, which hands out every pair once, in an order that is
/// not fixed.
#[verifier::external_body]
pub(crate) fn refs_entries(refs: &BiHashMap<u16, String>) -> (entries: Vec<(u16, String)>)
    ensures
        forall|i: int, j: int|
            0 <= i < j < entries@.len() ==> (#[trigger] entries@[i]).0 != (
            #[trigger] entries@[j]).0,
        forall|i: int|
            0 <= i < entries@.len() ==> ref_pairs(*refs).contains_pair(
                (#[trigger] entries@[i]).0,
                entries@[i].1@,
            ),
        forall|index: u16| #[trigger]
            ref_pairs(*refs).contains_key(index) ==> exists|i: int|
                0 <= i < entries@.len() && (#[trigger] entries@[i]).0 == index,
{
    refs.iter().map(|(index, signature)| (*index, signature.clone())).collect()
}

/// `BiHashMap::get_by_left`, which finds the right value that `index` is
/// paired with.
#[verifier::external_body]
pub(crate) fn refs_get<'a>(refs: &'a BiHashMap<u16, String>, index: u16) -> (r: Option<&'a String>)
    ensures
        match r {
            Some(signature) => ref_pairs(*refs).contains_pair(index, signature@),
            None => !ref_pairs(*refs).contains_key(index),
        },
{
    refs.get_by_left(&index)
}

} // verus!

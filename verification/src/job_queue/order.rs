//! Insertion-ordered sets of job keys: hashlink's `LinkedHashSet` with the Fx hasher, as the job manager keeps
//! its queues.
use vstd::prelude::*;

verus! {

/// hashlink's `LinkedHashSet`, carried through opaquely; its contents are named by [`key_order`].
#[verifier::external_type_specification]
#[verifier::external_body]
#[verifier::reject_recursive_types(T)]
#[verifier::reject_recursive_types(S)]
pub struct ExLinkedHashSet<T, S>(hashlink::LinkedHashSet<T, S>);

/// std's `BuildHasherDefault`, carried through opaquely.
#[verifier::external_type_specification]
#[verifier::external_body]
#[verifier::reject_recursive_types(H)]
pub struct ExBuildHasherDefault<H>(std::hash::BuildHasherDefault<H>);

/// rustc-hash's `FxHasher`, carried through opaquely.
#[verifier::external_type_specification]
#[verifier::external_body]
pub struct ExFxHasher(rustc_hash::FxHasher);

/// An insertion-ordered set of job keys.
pub type KeyOrder = hashlink::LinkedHashSet<u64, std::hash::BuildHasherDefault<rustc_hash::FxHasher>>;

/// What an ordered key set holds: its keys from front to back.
pub uninterp spec fn key_order(keys: KeyOrder) -> Seq<u64>;

/// `s` without `k`, keeping the order of the others.
pub open spec fn without_key(s: Seq<u64>, k: u64) -> Seq<u64> {
    if s.contains(k) {
        s.remove(s.index_of(k))
    } else {
        s
    }
}

/// Creates an empty set with `LinkedHashSet::default`.
#[verifier::external_body]
pub fn order_new() -> (keys: KeyOrder)
    ensures
        key_order(keys) == Seq::<u64>::empty(),
{
    hashlink::LinkedHashSet::default()
}

/// Calls `LinkedHashSet::insert`: puts `k` at the back, moving it there when it is already in the set, and
/// returns whether it was absent.
#[verifier::external_body]
pub fn order_insert(keys: &mut KeyOrder, k: u64) -> (inserted: bool)
    ensures
        inserted == !key_order(*old(keys)).contains(k),
        key_order(*final(keys)) == without_key(key_order(*old(keys)), k).push(k),
        key_order(*final(keys)).no_duplicates(),
{
    keys.insert(k)
}

/// Calls `LinkedHashSet::remove`: takes `k` out, keeping the order of the others, and returns whether it was
/// there.
#[verifier::external_body]
pub fn order_remove(keys: &mut KeyOrder, k: u64) -> (removed: bool)
    ensures
        removed == key_order(*old(keys)).contains(k),
        key_order(*final(keys)) == without_key(key_order(*old(keys)), k),
        key_order(*final(keys)).no_duplicates(),
{
    keys.remove(&k)
}

/// Calls `LinkedHashSet::pop_front`: takes out the key at the front, if there is one.
#[verifier::external_body]
pub fn order_pop_front(keys: &mut KeyOrder) -> (front: Option<u64>)
    ensures
        key_order(*old(keys)).len() == 0 ==> front is None && key_order(*final(keys)) == key_order(*old(keys)),
        key_order(*old(keys)).len() > 0 ==> front == Some(key_order(*old(keys))[0])
            && key_order(*final(keys)) == key_order(*old(keys)).drop_first(),
        key_order(*final(keys)).no_duplicates(),
{
    keys.pop_front()
}

/// Calls `LinkedHashSet::is_empty`.
#[verifier::external_body]
pub fn order_is_empty(keys: &KeyOrder) -> (empty: bool)
    ensures
        empty == (key_order(*keys).len() == 0),
{
    keys.is_empty()
}

} // verus!

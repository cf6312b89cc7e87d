//! The slab behind the timer wheel and behind the session table.
//!
//! Both keep a triple of integers per occupied key, so both share the items of
//! this module, which state what the `slab` crate does with its keys.
use vstd::prelude::*;

verus! {

/// `slab::Slab`, the store that hands out its own keys.
#[verifier::external_type_specification]
#[verifier::external_body]
#[verifier::reject_recursive_types(T)]
pub struct ExSlab<T>(slab::Slab<T>);

/// What a slab of integer triples holds, by key.
pub uninterp spec fn slab_contents(slab: slab::Slab<(u64, usize, usize)>) -> Map<
    usize,
    (u64, usize, usize),
>;

/// How many keys a slab of triples has ever handed out: it hands out a new one
/// only when every earlier one is occupied.
pub uninterp spec fn slab_keys_used(slab: slab::Slab<(u64, usize, usize)>) -> nat;

/// The contents of an empty slab.
pub open spec fn no_entries() -> Map<usize, (u64, usize, usize)> {
    Map::empty()
}

/// The number of entries below which a slab of triples can still grow: growing
/// doubles the storage, an entry takes at most 32 bytes, and no allocation
/// exceeds `isize::MAX` bytes.
pub open spec fn slab_growth_limit() -> int {
    isize::MAX as int / 64
}

/// Calls `slab::Slab::with_capacity`. A new slab holds nothing, and has handed
/// out no key. The call
/// panics when the storage would exceed `isize::MAX` bytes, so the capacity is
/// bounded by the 32 bytes that an entry can take.
#[verifier::external_body]
pub(crate) fn slab_with_capacity(capacity: usize) -> (empty: slab::Slab<(u64, usize, usize)>)
    requires
        capacity <= isize::MAX as int / 32,
    ensures
        slab_contents(empty) == no_entries(),
        slab_keys_used(empty) == 0,
{
    slab::Slab::with_capacity(capacity)
}

/// Calls `slab::Slab::len`: the number of occupied keys.
#[verifier::external_body]
pub(crate) fn slab_len(slab: &slab::Slab<(u64, usize, usize)>) -> (len: usize)
    ensures
        len == slab_contents(*slab).dom().len(),
{
    slab.len()
}

/// Calls `slab::Slab::insert`: the value is stored under a key that was vacant,
/// which is an index into a vector and so below `isize::MAX`. When every key
/// that was handed out before is occupied, it is the next one; otherwise it is
/// one of them.
#[verifier::external_body]
pub(crate) fn slab_insert(
    slab: &mut slab::Slab<(u64, usize, usize)>,
    value: (u64, usize, usize),
) -> (key: usize)
    requires
        slab_contents(*old(slab)).dom().len() < slab_growth_limit(),
    ensures
        !slab_contents(*old(slab)).dom().contains(key),
        key < isize::MAX,
        slab_contents(*final(slab)) == slab_contents(*old(slab)).insert(key, value),
        slab_contents(*old(slab)).dom().len() == slab_keys_used(*old(slab)) ==> key
            == slab_keys_used(*old(slab)) && slab_keys_used(*final(slab)) == slab_keys_used(
            *old(slab),
        ) + 1,
        slab_contents(*old(slab)).dom().len() != slab_keys_used(*old(slab)) ==> key
            < slab_keys_used(*old(slab)) && slab_keys_used(*final(slab)) == slab_keys_used(
            *old(slab),
        ),
{
    slab.insert(value)
}

/// Calls `slab::Slab::get`: the value stored under `key`, if the key is
/// occupied.
#[verifier::external_body]
pub(crate) fn slab_get(slab: &slab::Slab<(u64, usize, usize)>, key: usize) -> (value: Option<
    (u64, usize, usize),
>)
    ensures
        value == if slab_contents(*slab).dom().contains(key) {
            Some(slab_contents(*slab)[key])
        } else {
            None
        },
{
    slab.get(key).copied()
}

/// Calls `slab::Slab::index_mut` and stores `value` there: an occupied key gets
/// a new value. The call panics on a vacant key.
#[verifier::external_body]
pub(crate) fn slab_set(
    slab: &mut slab::Slab<(u64, usize, usize)>,
    key: usize,
    value: (u64, usize, usize),
)
    requires
        slab_contents(*old(slab)).dom().contains(key),
    ensures
        slab_contents(*final(slab)) == slab_contents(*old(slab)).insert(key, value),
        slab_keys_used(*final(slab)) == slab_keys_used(*old(slab)),
{
    slab[key] = value;
}

/// Calls `slab::Slab::try_remove`: an occupied key is vacated and its value
/// returned; a vacant key changes nothing.
#[verifier::external_body]
pub(crate) fn slab_try_remove(slab: &mut slab::Slab<(u64, usize, usize)>, key: usize) -> (value:
    Option<(u64, usize, usize)>)
    ensures
        slab_contents(*final(slab)) == slab_contents(*old(slab)).remove(key),
        slab_keys_used(*final(slab)) == slab_keys_used(*old(slab)),
        value == if slab_contents(*old(slab)).dom().contains(key) {
            Some(slab_contents(*old(slab))[key])
        } else {
            None
        },
{
    slab.try_remove(key)
}

/// Whether `keys` lists the keys of `contents`, in increasing order.
pub open spec fn lists_keys(
    keys: Seq<usize>,
    contents: Map<usize, (u64, usize, usize)>,
) -> bool {
    &&& forall|i: int, j: int| 0 <= i < j < keys.len() ==> keys[i] < keys[j]
    &&& forall|i: int| 0 <= i < keys.len() ==> contents.dom().contains(#[trigger] keys[i])
    &&& forall|k: usize| #[trigger] contents.dom().contains(k) ==> keys.contains(k)
}

/// Calls `slab::Slab::iter`, and takes the key of each item: the occupied keys,
/// in increasing order.
#[verifier::external_body]
pub(crate) fn slab_keys(slab: &slab::Slab<(u64, usize, usize)>) -> (keys: Vec<usize>)
    ensures
        lists_keys(keys@, slab_contents(*slab)),
{
    slab.iter().map(|(key, _)| key).collect()
}

} // verus!

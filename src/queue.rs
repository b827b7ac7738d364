//! The two reply queues of a connection, kept in hashlink's insertion-ordered collections.
//! Keys are the binary forms of CIDs.

use vstd::prelude::*;
use hashlink::{LinkedHashMap, LinkedHashSet};

verus! {

/// Presence replies waiting to be sent: CID bytes to "we have it", in insertion order.
#[verifier::external_body]
pub struct PresenceQueue {
    map: LinkedHashMap<Vec<u8>, bool>,
}

/// Blocks waiting to be sent: CID bytes, in insertion order.
#[verifier::external_body]
pub struct BlockQueue {
    set: LinkedHashSet<Vec<u8>>,
}

/// What a presence map holds, front first: each key with its value.
pub uninterp spec fn presence_entries(m: PresenceQueue) -> Seq<(Seq<u8>, bool)>;

/// What a block set holds, front first.
pub uninterp spec fn block_entries(s: BlockQueue) -> Seq<Seq<u8>>;

/// No key occurs twice.
pub open spec fn unique_keys(s: Seq<(Seq<u8>, bool)>) -> bool {
    forall|i: int, j: int| 0 <= i < s.len() && 0 <= j < s.len() && i != j ==> #[trigger] s[i].0 != #[trigger] s[j].0
}

/// No item occurs twice.
pub open spec fn unique_items(s: Seq<Seq<u8>>) -> bool {
    forall|i: int, j: int| 0 <= i < s.len() && 0 <= j < s.len() && i != j ==> #[trigger] s[i] != #[trigger] s[j]
}

pub open spec fn has_key(s: Seq<(Seq<u8>, bool)>, k: Seq<u8>) -> bool {
    exists|i: int| 0 <= i < s.len() && #[trigger] s[i].0 == k
}

pub open spec fn key_index(s: Seq<(Seq<u8>, bool)>, k: Seq<u8>) -> int {
    choose|i: int| 0 <= i < s.len() && #[trigger] s[i].0 == k
}

/// The entry of `k` takes value `v` where it stands; a new key goes to the back.
pub open spec fn replace_entry(s: Seq<(Seq<u8>, bool)>, k: Seq<u8>, v: bool) -> Seq<(Seq<u8>, bool)> {
    if has_key(s, k) {
        s.update(key_index(s, k), (k, v))
    } else {
        s.push((k, v))
    }
}

/// The entry of `k`, if any, leaves; the others keep their order.
pub open spec fn remove_entry(s: Seq<(Seq<u8>, bool)>, k: Seq<u8>) -> Seq<(Seq<u8>, bool)> {
    if has_key(s, k) {
        s.remove(key_index(s, k))
    } else {
        s
    }
}

/// `k` is added at the back unless it is there already, where it stays.
pub open spec fn replace_item(s: Seq<Seq<u8>>, k: Seq<u8>) -> Seq<Seq<u8>> {
    if s.contains(k) {
        s
    } else {
        s.push(k)
    }
}

/// `k`, if there, leaves; the others keep their order.
pub open spec fn remove_item(s: Seq<Seq<u8>>, k: Seq<u8>) -> Seq<Seq<u8>> {
    if s.contains(k) {
        s.remove(s.index_of(k))
    } else {
        s
    }
}

pub proof fn lemma_replace_entry(s: Seq<(Seq<u8>, bool)>, k: Seq<u8>, v: bool)
    requires
        unique_keys(s),
    ensures
        unique_keys(replace_entry(s, k, v)),
        has_key(replace_entry(s, k, v), k),
        forall|j: Seq<u8>| #[trigger] has_key(replace_entry(s, k, v), j) ==> has_key(s, j) || j == k,
        forall|j: Seq<u8>| has_key(s, j) ==> #[trigger] has_key(replace_entry(s, k, v), j),
        has_key(s, k) ==> replace_entry(s, k, v).len() == s.len(),
        !has_key(s, k) ==> replace_entry(s, k, v).len() == s.len() + 1,
{
    let r = replace_entry(s, k, v);
    if has_key(s, k) {
        let i = key_index(s, k);
        assert(r[i].0 == k);
        assert forall|j: Seq<u8>| #[trigger] has_key(r, j) implies has_key(s, j) || j == k by {
            let t = choose|t: int| 0 <= t < r.len() && #[trigger] r[t].0 == j;
            if t != i {
                assert(s[t].0 == j);
            }
        }
        assert forall|j: Seq<u8>| has_key(s, j) implies #[trigger] has_key(r, j) by {
            let t = choose|t: int| 0 <= t < s.len() && #[trigger] s[t].0 == j;
            assert(r[t].0 == j);
        }
    } else {
        assert(r[s.len() as int].0 == k);
        assert forall|j: Seq<u8>| #[trigger] has_key(r, j) implies has_key(s, j) || j == k by {
            let t = choose|t: int| 0 <= t < r.len() && #[trigger] r[t].0 == j;
            if t < s.len() {
                assert(s[t].0 == j);
            }
        }
        assert forall|j: Seq<u8>| has_key(s, j) implies #[trigger] has_key(r, j) by {
            let t = choose|t: int| 0 <= t < s.len() && #[trigger] s[t].0 == j;
            assert(r[t].0 == j);
        }
    }
}

pub proof fn lemma_remove_entry(s: Seq<(Seq<u8>, bool)>, k: Seq<u8>)
    requires
        unique_keys(s),
    ensures
        unique_keys(remove_entry(s, k)),
        !has_key(remove_entry(s, k), k),
        forall|j: Seq<u8>| #[trigger] has_key(remove_entry(s, k), j) ==> has_key(s, j),
        forall|j: Seq<u8>| has_key(s, j) && j != k ==> #[trigger] has_key(remove_entry(s, k), j),
        has_key(s, k) ==> remove_entry(s, k).len() + 1 == s.len(),
        !has_key(s, k) ==> remove_entry(s, k) == s,
{
    let r = remove_entry(s, k);
    if has_key(s, k) {
        let i = key_index(s, k);
        assert forall|a: int, b: int| 0 <= a < r.len() && 0 <= b < r.len() && a != b implies #[trigger] r[a].0 != #[trigger] r[b].0 by {
            let a2 = if a < i { a } else { a + 1 };
            let b2 = if b < i { b } else { b + 1 };
            assert(r[a] == s[a2]);
            assert(r[b] == s[b2]);
        }
        assert forall|j: Seq<u8>| #[trigger] has_key(r, j) implies has_key(s, j) by {
            let t = choose|t: int| 0 <= t < r.len() && #[trigger] r[t].0 == j;
            let t2 = if t < i { t } else { t + 1 };
            assert(s[t2].0 == j);
        }
        assert(!has_key(r, k)) by {
            if has_key(r, k) {
                let t = choose|t: int| 0 <= t < r.len() && #[trigger] r[t].0 == k;
                let t2 = if t < i { t } else { t + 1 };
                assert(s[t2].0 == k);
            }
        }
        assert forall|j: Seq<u8>| has_key(s, j) && j != k implies #[trigger] has_key(r, j) by {
            let t = choose|t: int| 0 <= t < s.len() && #[trigger] s[t].0 == j;
            if t < i {
                assert(r[t].0 == j);
            } else {
                assert(t != i);
                assert(r[t - 1].0 == j);
            }
        }
    }
}

pub proof fn lemma_replace_item(s: Seq<Seq<u8>>, k: Seq<u8>)
    requires
        unique_items(s),
    ensures
        unique_items(replace_item(s, k)),
        replace_item(s, k).contains(k),
        forall|j: Seq<u8>| #[trigger] replace_item(s, k).contains(j) ==> s.contains(j) || j == k,
        forall|j: Seq<u8>| s.contains(j) ==> #[trigger] replace_item(s, k).contains(j),
        s.contains(k) ==> replace_item(s, k).len() == s.len(),
        !s.contains(k) ==> replace_item(s, k).len() == s.len() + 1,
{
    let r = replace_item(s, k);
    if !s.contains(k) {
        assert(r[s.len() as int] == k);
        assert forall|j: Seq<u8>| #[trigger] r.contains(j) implies s.contains(j) || j == k by {
            let t = choose|t: int| 0 <= t < r.len() && r[t] == j;
            if t < s.len() {
                assert(s[t] == j);
            }
        }
        assert forall|j: Seq<u8>| s.contains(j) implies #[trigger] r.contains(j) by {
            let t = choose|t: int| 0 <= t < s.len() && s[t] == j;
            assert(r[t] == j);
        }
    }
}

pub proof fn lemma_remove_item(s: Seq<Seq<u8>>, k: Seq<u8>)
    requires
        unique_items(s),
    ensures
        unique_items(remove_item(s, k)),
        !remove_item(s, k).contains(k),
        forall|j: Seq<u8>| #[trigger] remove_item(s, k).contains(j) ==> s.contains(j),
        forall|j: Seq<u8>| s.contains(j) && j != k ==> #[trigger] remove_item(s, k).contains(j),
        s.contains(k) ==> remove_item(s, k).len() + 1 == s.len(),
        !s.contains(k) ==> remove_item(s, k) == s,
{
    let r = remove_item(s, k);
    if s.contains(k) {
        let i = s.index_of(k);
        assert forall|a: int, b: int| 0 <= a < r.len() && 0 <= b < r.len() && a != b implies #[trigger] r[a] != #[trigger] r[b] by {
            let a2 = if a < i { a } else { a + 1 };
            let b2 = if b < i { b } else { b + 1 };
            assert(r[a] == s[a2]);
            assert(r[b] == s[b2]);
        }
        assert forall|j: Seq<u8>| #[trigger] r.contains(j) implies s.contains(j) by {
            let t = choose|t: int| 0 <= t < r.len() && r[t] == j;
            let t2 = if t < i { t } else { t + 1 };
            assert(s[t2] == j);
        }
        assert(!r.contains(k)) by {
            if r.contains(k) {
                let t = choose|t: int| 0 <= t < r.len() && r[t] == k;
                let t2 = if t < i { t } else { t + 1 };
                assert(s[t2] == k);
            }
        }
        assert forall|j: Seq<u8>| s.contains(j) && j != k implies #[trigger] r.contains(j) by {
            let t = choose|t: int| 0 <= t < s.len() && s[t] == j;
            if t < i {
                assert(r[t] == j);
            } else {
                assert(t != i);
                assert(r[t - 1] == j);
            }
        }
    }
}

/// Relies on LinkedHashMap::new: the map starts empty.
#[verifier::external_body]
pub(crate) fn presences_new() -> (r: PresenceQueue)
    ensures
        presence_entries(r) == Seq::<(Seq<u8>, bool)>::empty(),
{
    PresenceQueue { map: LinkedHashMap::new() }
}

/// Relies on LinkedHashMap::len: the number of entries.
#[verifier::external_body]
pub(crate) fn presences_len(m: &PresenceQueue) -> (r: usize)
    ensures
        r == presence_entries(*m).len(),
{
    m.map.len()
}

/// Relies on LinkedHashMap::clear: every entry leaves.
#[verifier::external_body]
pub(crate) fn presences_clear(m: &mut PresenceQueue)
    ensures
        presence_entries(*final(m)) == Seq::<(Seq<u8>, bool)>::empty(),
{
    m.map.clear()
}

/// Relies on LinkedHashMap::remove: the entry of `k` leaves, the order of the others stays.
#[verifier::external_body]
pub(crate) fn presences_remove(m: &mut PresenceQueue, k: &Vec<u8>)
    requires
        unique_keys(presence_entries(*old(m))),
    ensures
        presence_entries(*final(m)) == remove_entry(presence_entries(*old(m)), k@),
{
    m.map.remove(k);
}

/// Relies on LinkedHashMap::replace: a present key takes the new value without moving; a new
/// key goes to the back.
#[verifier::external_body]
pub(crate) fn presences_replace(m: &mut PresenceQueue, k: Vec<u8>, v: bool)
    requires
        unique_keys(presence_entries(*old(m))),
    ensures
        presence_entries(*final(m)) == replace_entry(presence_entries(*old(m)), k@, v),
{
    m.map.replace(k, v);
}

/// Relies on LinkedHashMap::pop_front: the front entry leaves and is returned.
#[verifier::external_body]
pub(crate) fn presences_pop_front(m: &mut PresenceQueue) -> (r: Option<(Vec<u8>, bool)>)
    ensures
        presence_entries(*old(m)).len() == 0 ==> r is None && presence_entries(*final(m)) == presence_entries(*old(m)),
        presence_entries(*old(m)).len() > 0 ==> (r matches Some((k, v)) && k@ == presence_entries(
            *old(m),
        )[0].0 && v == presence_entries(*old(m))[0].1 && presence_entries(*final(m))
            == presence_entries(*old(m)).drop_first()),
{
    m.map.pop_front()
}

/// Relies on LinkedHashSet::new: the set starts empty.
#[verifier::external_body]
pub(crate) fn blocks_new() -> (r: BlockQueue)
    ensures
        block_entries(r) == Seq::<Seq<u8>>::empty(),
{
    BlockQueue { set: LinkedHashSet::new() }
}

/// Relies on LinkedHashSet::len: the number of items.
#[verifier::external_body]
pub(crate) fn blocks_len(s: &BlockQueue) -> (r: usize)
    ensures
        r == block_entries(*s).len(),
{
    s.set.len()
}

/// Relies on LinkedHashSet::clear: every item leaves.
#[verifier::external_body]
pub(crate) fn blocks_clear(s: &mut BlockQueue)
    ensures
        block_entries(*final(s)) == Seq::<Seq<u8>>::empty(),
{
    s.set.clear()
}

/// Relies on LinkedHashSet::remove: `k` leaves, the order of the others stays.
#[verifier::external_body]
pub(crate) fn blocks_remove(s: &mut BlockQueue, k: &Vec<u8>)
    requires
        unique_items(block_entries(*old(s))),
    ensures
        block_entries(*final(s)) == remove_item(block_entries(*old(s)), k@),
{
    s.set.remove(k);
}

/// Relies on LinkedHashSet::replace: a present item keeps its place; a new one goes to the
/// back.
#[verifier::external_body]
pub(crate) fn blocks_replace(s: &mut BlockQueue, k: Vec<u8>)
    requires
        unique_items(block_entries(*old(s))),
    ensures
        block_entries(*final(s)) == replace_item(block_entries(*old(s)), k@),
{
    s.set.replace(k);
}

/// Relies on LinkedHashSet::pop_front: the front item leaves and is returned.
#[verifier::external_body]
pub(crate) fn blocks_pop_front(s: &mut BlockQueue) -> (r: Option<Vec<u8>>)
    ensures
        block_entries(*old(s)).len() == 0 ==> r is None && block_entries(*final(s)) == block_entries(*old(s)),
        block_entries(*old(s)).len() > 0 ==> (r matches Some(k) && k@ == block_entries(*old(s))[0]
            && block_entries(*final(s)) == block_entries(*old(s)).drop_first()),
{
    s.set.pop_front()
}

} // verus!

//! Laws of the keyspace as `SET` and `GET` change it.
use vstd::prelude::*;
use crate::codec::{encode_bulk, null_bulk};
use crate::keyspace::expiry_after;
use crate::resp2::get_effect;

verus! {

/// A `GET` after a `SET` of `k` to `v`: before the time to live has run out
/// it answers `v`; once more than the time to live has passed it answers
/// nil and the key is gone. (An expiry past the clock's last millisecond
/// is that millisecond.)
pub proof fn lemma_set_then_get(
    m: Map<Seq<u8>, (Seq<u8>, Option<u64>)>,
    k: Seq<u8>,
    v: Seq<u8>,
    px: Option<u64>,
    set_at: u64,
    get_at: u64,
    after: Map<Seq<u8>, (Seq<u8>, Option<u64>)>,
    response: Seq<u8>,
)
    requires
        get_effect(m.insert(k, (v, expiry_after(set_at, px))), after, k, get_at, response),
    ensures
        (px is None || get_at < set_at + px->Some_0 <= u64::MAX) ==> response == encode_bulk(v),
        (px is Some && get_at > set_at + px->Some_0) ==> response == null_bulk()
            && !after.contains_key(k),
{
}

/// A second `SET` of a key replaces both its value and its expiry.
pub proof fn lemma_set_overwrites(
    m: Map<Seq<u8>, (Seq<u8>, Option<u64>)>,
    k: Seq<u8>,
    first: (Seq<u8>, Option<u64>),
    second: (Seq<u8>, Option<u64>),
)
    ensures
        m.insert(k, first).insert(k, second) == m.insert(k, second),
{
    assert(m.insert(k, first).insert(k, second) =~= m.insert(k, second));
}

/// The keyspace after `SET`s of the given keys, values and expiries, in order.
pub open spec fn apply_sets(
    m: Map<Seq<u8>, (Seq<u8>, Option<u64>)>,
    sets: Seq<(Seq<u8>, (Seq<u8>, Option<u64>))>,
) -> Map<Seq<u8>, (Seq<u8>, Option<u64>)>
    decreases sets.len(),
{
    if sets.len() == 0 {
        m
    } else {
        apply_sets(m, sets.drop_last()).insert(sets.last().0, sets.last().1)
    }
}

/// A client's own write survives any writes of other keys that other
/// clients make between its `SET` and its `GET`.
pub proof fn lemma_own_write_survives(
    m: Map<Seq<u8>, (Seq<u8>, Option<u64>)>,
    k: Seq<u8>,
    entry: (Seq<u8>, Option<u64>),
    others: Seq<(Seq<u8>, (Seq<u8>, Option<u64>))>,
)
    requires
        forall|i: int| 0 <= i < others.len() ==> (#[trigger] others[i]).0 != k,
    ensures
        apply_sets(m.insert(k, entry), others).contains_key(k),
        apply_sets(m.insert(k, entry), others)[k] == entry,
    decreases others.len(),
{
    if others.len() > 0 {
        let init = others.drop_last();
        assert forall|i: int| 0 <= i < init.len() implies (#[trigger] init[i]).0 != k by {
            assert(init[i] == others[i]);
        }
        lemma_own_write_survives(m, k, entry, init);
        assert(others[others.len() - 1].0 != k);
    }
}

} // verus!

//! What the store guarantees, stated over its mathematical model and
//! proved once and for all: the TTL bound, sliding refresh, hierarchical
//! query correctness, the cascade flag's semantics, sibling preservation
//! under pruning, empty reads as normal results, freshness of
//! identifiers, and the mutual consistency of the derived indexes.

use vstd::prelude::*;

use crate::paths::covers;
use crate::store::{
    after_get, after_insert, alive, distinct_ids, expiry_at, expiry_bucket, fresh_record,
    get_result, ids_at, ids_below, lemma_live_at_contains, live_at, matching_values,
    refresh_applies, refreshed, refreshed_rec, RecordV, StoreView,
};

verus! {

/// Every record still alive at `now` survives a prune at `now`.
proof fn lemma_live_at_contains_fwd(rs: Seq<RecordV>, now: u64, k: int)
    requires
        0 <= k < rs.len(),
        alive(rs[k], now),
    ensures
        live_at(rs, now).contains(rs[k]),
    decreases rs.len(),
{
    let s = rs.drop_last();
    if k == rs.len() - 1 {
        let l = live_at(s, now);
        assert(l.push(rs.last())[l.len() as int] == rs[k]);
    } else {
        lemma_live_at_contains_fwd(s, now, k);
        let l = live_at(s, now);
        let j = choose|j: int| 0 <= j < l.len() && l[j] == s[k];
        if alive(rs.last(), now) {
            assert(l.push(rs.last())[j] == s[k]);
        }
        assert(s[k] == rs[k]);
    }
}

/// The value of every record whose path the query covers is among the
/// matching values.
proof fn lemma_matching_values_contains_fwd(rs: Seq<RecordV>, q: Seq<char>, k: int)
    requires
        0 <= k < rs.len(),
        covers(q, rs[k].path),
    ensures
        matching_values(rs, q).contains(rs[k].value),
    decreases rs.len(),
{
    let s = rs.drop_last();
    let rest = matching_values(s, q);
    if k == rs.len() - 1 {
        assert(rest.push(rs.last().value)[rest.len() as int] == rs[k].value);
    } else {
        lemma_matching_values_contains_fwd(s, q, k);
        let j = choose|j: int| 0 <= j < rest.len() && rest[j] == s[k].value;
        if covers(q, rs.last().path) {
            assert(rest.push(rs.last().value)[j] == s[k].value);
        }
        assert(s[k] == rs[k]);
    }
}

/// Every matching value comes from some record whose path the query covers.
proof fn lemma_matching_values_src(rs: Seq<RecordV>, q: Seq<char>, j: int)
    requires
        0 <= j < matching_values(rs, q).len(),
    ensures
        exists|k: int|
            0 <= k < rs.len() && covers(q, #[trigger] rs[k].path) && matching_values(rs, q)[j]
                == rs[k].value,
    decreases rs.len(),
{
    let s = rs.drop_last();
    let rest = matching_values(s, q);
    if covers(q, rs.last().path) && j == rest.len() {
        assert(covers(q, rs[rs.len() - 1].path));
        assert(matching_values(rs, q)[j] == rs[rs.len() - 1].value);
    } else {
        lemma_matching_values_src(s, q, j);
        let k = choose|k: int|
            0 <= k < s.len() && covers(q, #[trigger] s[k].path) && rest[j] == s[k].value;
        assert(rs[k].path == s[k].path);
        assert(matching_values(rs, q)[j] == rs[k].value);
    }
}

/// When the query covers no record's path, there are no matching values.
proof fn lemma_matching_values_none(rs: Seq<RecordV>, q: Seq<char>)
    requires
        forall|k: int| 0 <= k < rs.len() ==> !covers(q, #[trigger] rs[k].path),
    ensures
        matching_values(rs, q) == Seq::<serde_json::Value>::empty(),
    decreases rs.len(),
{
    if rs.len() > 0 {
        let s = rs.drop_last();
        assert forall|k: int| 0 <= k < s.len() implies !covers(q, #[trigger] s[k].path) by {
            assert(s[k] == rs[k]);
        }
        lemma_matching_values_none(s, q);
        assert(!covers(q, rs[rs.len() - 1].path));
    }
}

/// An identifier bound on a sequence of records applies to any contained
/// record.
proof fn lemma_ids_below_contains(rs: Seq<RecordV>, bound: u64, r: RecordV)
    requires
        ids_below(rs, bound),
        rs.contains(r),
    ensures
        r.id < bound,
{
    let k = choose|k: int| 0 <= k < rs.len() && rs[k] == r;
    assert(rs[k].id < bound);
}

/// Mutual consistency of the derived indexes: in a store with pairwise
/// distinct identifiers, each record's identifier sits in the expiry
/// bucket of its own expiry and in the path-index node set of its own
/// path, and in no other bucket and no other node set.
pub proof fn lemma_index_consistency(rs: Seq<RecordV>, k: int)
    requires
        distinct_ids(rs),
        0 <= k < rs.len(),
    ensures
        expiry_bucket(rs, rs[k].expiry).contains(rs[k].id),
        ids_at(rs, rs[k].path).contains(rs[k].id),
        forall|t: u64| t != rs[k].expiry ==> !(#[trigger] expiry_bucket(rs, t)).contains(rs[k].id),
        forall|p: Seq<char>| p != rs[k].path ==> !(#[trigger] ids_at(rs, p)).contains(rs[k].id),
{
    assert(expiry_bucket(rs, rs[k].expiry).contains(rs[k].id)) by {
        assert(0 <= k < rs.len() && rs[k].id == rs[k].id && rs[k].expiry == rs[k].expiry);
    }
    assert(ids_at(rs, rs[k].path).contains(rs[k].id)) by {
        assert(0 <= k < rs.len() && rs[k].id == rs[k].id && rs[k].path == rs[k].path);
    }
    assert forall|t: u64| t != rs[k].expiry implies !(#[trigger] expiry_bucket(rs, t)).contains(
        rs[k].id,
    ) by {
        if expiry_bucket(rs, t).contains(rs[k].id) {
            let k2 = choose|k2: int|
                0 <= k2 < rs.len() && (#[trigger] rs[k2]).id == rs[k].id && rs[k2].expiry == t;
            assert(k2 == k) by {
                if k2 < k {
                    assert(rs[k2].id != rs[k].id);
                } else if k < k2 {
                    assert(rs[k].id != rs[k2].id);
                }
            }
        }
    }
    assert forall|p: Seq<char>| p != rs[k].path implies !(#[trigger] ids_at(rs, p)).contains(
        rs[k].id,
    ) by {
        if ids_at(rs, p).contains(rs[k].id) {
            let k2 = choose|k2: int|
                0 <= k2 < rs.len() && (#[trigger] rs[k2]).id == rs[k].id && rs[k2].path == p;
            assert(k2 == k) by {
                if k2 < k {
                    assert(rs[k2].id != rs[k].id);
                } else if k < k2 {
                    assert(rs[k].id != rs[k2].id);
                }
            }
        }
    }
}

/// No dangling identifiers: a prune at `now` leaves every expiry bucket at
/// or before `now` empty, so nothing removed from the entity table keeps a
/// seat in the expiry index.
pub proof fn lemma_no_dangling_after_prune(rs: Seq<RecordV>, now: u64, t: u64)
    requires
        t <= now,
    ensures
        expiry_bucket(live_at(rs, now), t) == Set::<u64>::empty(),
{
    let live = live_at(rs, now);
    assert forall|id: u64| !(#[trigger] expiry_bucket(live, t).contains(id)) by {
        if expiry_bucket(live, t).contains(id) {
            let k = choose|k: int|
                0 <= k < live.len() && (#[trigger] live[k]).id == id && live[k].expiry == t;
            assert(live.contains(live[k]));
            lemma_live_at_contains(rs, now, live[k]);
            assert(alive(live[k], now));
        }
    }
    assert(expiry_bucket(live, t) =~= Set::<u64>::empty());
}

/// TTL bound: an entity inserted at time `t`, never refreshed afterwards,
/// is returned by a hierarchical read of its own path at any instant
/// before `t + lifetime`, and no trace of it survives a prune at any
/// instant from `t + lifetime` onward.  The boundary is stated as
/// `expiry_at(t, lifetime)`, which is `t + lifetime` everywhere below the
/// largest representable timestamp and saturates there.
pub proof fn lemma_ttl_bound(
    v: StoreView,
    path: Seq<char>,
    value: serde_json::Value,
    t: u64,
    now: u64,
)
    requires
        v.wf(),
    ensures
        now < expiry_at(t, v.lifetime) ==> get_result(
            after_insert(v, path, value, t),
            path,
            now,
        ).contains(value),
        now >= expiry_at(t, v.lifetime) ==> forall|k: int|
            0 <= k < live_at(after_insert(v, path, value, t).records, now).len()
                ==> #[trigger] live_at(after_insert(v, path, value, t).records, now)[k].id
                != v.next_id,
{
    let r = fresh_record(v, path, value, t);
    let v1 = after_insert(v, path, value, t);
    assert(r.expiry == expiry_at(t, v.lifetime));
    assert(v1.records.last() == r);
    if now < expiry_at(t, v.lifetime) {
        assert(alive(r, now));
        lemma_live_at_contains_fwd(v1.records, now, v1.records.len() - 1);
        let live = live_at(v1.records, now);
        let k = choose|k: int| 0 <= k < live.len() && live[k] == r;
        let rr = refreshed(live, path, v.cascade_refresh, expiry_at(now, v.lifetime));
        assert(rr[k] == refreshed_rec(r, path, v.cascade_refresh, expiry_at(now, v.lifetime)));
        assert(rr[k].value == value && rr[k].path == path);
        assert(covers(path, rr[k].path));
        lemma_matching_values_contains_fwd(rr, path, k);
    }
    if now >= expiry_at(t, v.lifetime) {
        let live = live_at(v1.records, now);
        assert forall|k: int| 0 <= k < live.len() implies #[trigger] live[k].id != v.next_id by {
            assert(live.contains(live[k]));
            lemma_live_at_contains(v1.records, now, live[k]);
            assert(alive(live[k], now));
            assert(live[k] != r);
            let j = choose|j: int| 0 <= j < v1.records.len() && v1.records[j] == live[k];
            assert(j < v1.records.len() - 1);
            let pruned = live_at(v.records, t);
            assert(pruned.contains(live[k])) by {
                assert(pruned[j] == live[k]);
            }
            lemma_live_at_contains(v.records, t, live[k]);
            lemma_ids_below_contains(v.records, v.next_id, live[k]);
        }
    }
}

/// Sliding refresh: a read of `q` at `now` moves the expiry of every
/// record it applies to — every record at `q` itself, and with cascading
/// refresh also every record beneath `q` — to exactly `now + lifetime`,
/// while touching nothing else of any record.
pub proof fn lemma_sliding_refresh(v: StoreView, q: Seq<char>, now: u64, k: int)
    requires
        0 <= k < live_at(v.records, now).len(),
    ensures
        ({
            let live = live_at(v.records, now);
            let out = after_get(v, q, now).records;
            &&& out.len() == live.len()
            &&& refresh_applies(live[k], q, v.cascade_refresh) ==> out[k].expiry == expiry_at(
                now,
                v.lifetime,
            )
            &&& !refresh_applies(live[k], q, v.cascade_refresh) ==> out[k] == live[k]
            &&& out[k].id == live[k].id
            &&& out[k].path == live[k].path
            &&& out[k].value == live[k].value
        }),
{
    let live = live_at(v.records, now);
    let out = after_get(v, q, now).records;
    assert(out[k] == refreshed_rec(live[k], q, v.cascade_refresh, expiry_at(now, v.lifetime)));
}

/// Cascade flag semantics: with cascading refresh switched off, a read of
/// `q` refreshes exactly the records sitting at `q` itself; a record
/// beneath `q` keeps its expiry untouched, yet its value is still
/// returned.
pub proof fn lemma_cascade_off(v: StoreView, q: Seq<char>, now: u64, k: int)
    requires
        !v.cascade_refresh,
        0 <= k < live_at(v.records, now).len(),
    ensures
        ({
            let live = live_at(v.records, now);
            let out = after_get(v, q, now).records;
            &&& live[k].path == q ==> out[k].expiry == expiry_at(now, v.lifetime)
            &&& live[k].path != q ==> out[k] == live[k]
            &&& covers(q, live[k].path) ==> get_result(v, q, now).contains(live[k].value)
        }),
{
    let live = live_at(v.records, now);
    let out = after_get(v, q, now).records;
    assert(out[k] == refreshed_rec(live[k], q, v.cascade_refresh, expiry_at(now, v.lifetime)));
    if covers(q, live[k].path) {
        assert(out[k].value == live[k].value && out[k].path == live[k].path);
        lemma_matching_values_contains_fwd(out, q, k);
    }
}

/// Sibling preservation: a prune at `now` removes only expired records.
/// Every record still alive survives it, and nothing survives that was not
/// alive and present beforehand (`lemma_live_at_contains` states the
/// converse direction).
pub proof fn lemma_sibling_preservation(rs: Seq<RecordV>, now: u64, k: int)
    requires
        0 <= k < rs.len(),
        alive(rs[k], now),
    ensures
        live_at(rs, now).contains(rs[k]),
{
    lemma_live_at_contains_fwd(rs, now, k);
}

/// Idempotent empty reads: when no live record's path is covered by `q` —
/// the path was never written, or everything under it has expired — a read
/// returns the empty sequence.  By its type it is a normal result, never
/// an error.
pub proof fn lemma_empty_read(v: StoreView, q: Seq<char>, now: u64)
    requires
        forall|k: int|
            0 <= k < live_at(v.records, now).len() ==> !covers(
                q,
                #[trigger] live_at(v.records, now)[k].path,
            ),
    ensures
        get_result(v, q, now) == Seq::<serde_json::Value>::empty(),
{
    let live = live_at(v.records, now);
    let out = after_get(v, q, now).records;
    assert forall|k: int| 0 <= k < out.len() implies !covers(q, #[trigger] out[k].path) by {
        assert(out[k] == refreshed_rec(live[k], q, v.cascade_refresh, expiry_at(now, v.lifetime)));
        assert(out[k].path == live[k].path);
    }
    lemma_matching_values_none(out, q);
}

/// Hierarchical query correctness, first direction: a read of `q` returns
/// the value of every live record whose path is `q` or a proper
/// segment-wise descendant of it.
pub proof fn lemma_hierarchical_query(v: StoreView, q: Seq<char>, now: u64)
    ensures
        forall|k: int|
            0 <= k < live_at(v.records, now).len() && covers(
                q,
                #[trigger] live_at(v.records, now)[k].path,
            ) ==> get_result(v, q, now).contains(live_at(v.records, now)[k].value),
{
    let live = live_at(v.records, now);
    let out = after_get(v, q, now).records;
    let e = expiry_at(now, v.lifetime);
    assert forall|k: int| 0 <= k < out.len() implies #[trigger] out[k].path == live[k].path
        && out[k].value == live[k].value by {
        assert(out[k] == refreshed_rec(live[k], q, v.cascade_refresh, e));
    }
    assert forall|k: int|
        0 <= k < live.len() && covers(q, #[trigger] live[k].path) implies get_result(
        v,
        q,
        now,
    ).contains(live[k].value) by {
        lemma_matching_values_contains_fwd(out, q, k);
    }
}

/// Hierarchical query correctness, converse direction: every value a read
/// of `q` returns comes from some live record whose path `q` covers.
pub proof fn lemma_hierarchical_query_src(v: StoreView, q: Seq<char>, now: u64, j: int)
    requires
        0 <= j < get_result(v, q, now).len(),
    ensures
        exists|k: int|
            0 <= k < live_at(v.records, now).len() && covers(
                q,
                #[trigger] live_at(v.records, now)[k].path,
            ) && get_result(v, q, now)[j] == live_at(v.records, now)[k].value,
{
    let live = live_at(v.records, now);
    let out = after_get(v, q, now).records;
    let e = expiry_at(now, v.lifetime);
    lemma_matching_values_src(out, q, j);
    let k0 = choose|k0: int|
        0 <= k0 < out.len() && covers(q, #[trigger] out[k0].path) && matching_values(out, q)[j]
            == out[k0].value;
    assert(out[k0] == refreshed_rec(live[k0], q, v.cascade_refresh, e));
    assert(0 <= k0 < live_at(v.records, now).len() && covers(
        q,
        live_at(v.records, now)[k0].path,
    ) && get_result(v, q, now)[j] == live_at(v.records, now)[k0].value);
}

/// Fresh identifiers: two consecutive inserts, even with an identical path
/// and an identical value, hand out distinct identifiers; and when the
/// first entity is still alive at the second insert, both records stand in
/// the store, each with its own expiry.
pub proof fn lemma_fresh_identifiers(
    v: StoreView,
    p1: Seq<char>,
    x1: serde_json::Value,
    t1: u64,
    p2: Seq<char>,
    x2: serde_json::Value,
    t2: u64,
)
    requires
        v.wf(),
        v.next_id + 1 < u64::MAX,
    ensures
        ({
            let v1 = after_insert(v, p1, x1, t1);
            let v2 = after_insert(v1, p2, x2, t2);
            &&& v1.next_id == v.next_id + 1
            &&& fresh_record(v, p1, x1, t1).id != fresh_record(v1, p2, x2, t2).id
            &&& alive(fresh_record(v, p1, x1, t1), t2) ==> v2.records.contains(
                fresh_record(v, p1, x1, t1),
            ) && v2.records.contains(fresh_record(v1, p2, x2, t2))
        }),
{
    let r1 = fresh_record(v, p1, x1, t1);
    let v1 = after_insert(v, p1, x1, t1);
    let r2 = fresh_record(v1, p2, x2, t2);
    let v2 = after_insert(v1, p2, x2, t2);
    if alive(r1, t2) {
        assert(v1.records.last() == r1);
        lemma_live_at_contains_fwd(v1.records, t2, v1.records.len() - 1);
        let pruned = live_at(v1.records, t2);
        let k = choose|k: int| 0 <= k < pruned.len() && pruned[k] == r1;
        assert(v2.records[k] == r1);
        assert(v2.records.contains(r1));
        assert(v2.records.last() == r2);
        assert(v2.records.contains(r2)) by {
            assert(v2.records[v2.records.len() - 1] == r2);
        }
    }
}

} // verus!

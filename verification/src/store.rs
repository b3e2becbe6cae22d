//! The store engine.
//!
//! Conceptually the engine keeps three mutually consistent structures: an
//! entity table (identifier to value), a path index (path to the
//! identifiers attached exactly there, with subtree lookup), and an expiry
//! index (expiry instant to identifiers, plus its reverse).  Here all
//! three are carried by one sequence holding a record per entity — its
//! identifier, owning path, value and expiry — so the indexes are the
//! derived views `ids_at` and `expiry_bucket`, and their mutual
//! consistency is proved in the laws module instead of being maintained by
//! hand across redundant maps.
//!
//! Time enters every operation as an explicit instant.  The wall-clock
//! entry points `create_entity` and `get_entities` read the clock once and
//! defer to the timed operations.

use vstd::prelude::*;

use crate::entity::clone_value;
use crate::paths::{covers, is_strict_descendant, path_covers, path_eq};

verus! {

/// One stored entity: its identifier, owning path, payload, and the instant
/// at which it expires.
pub struct Record {
    pub id: u64,
    pub path: String,
    pub value: serde_json::Value,
    pub expiry: u64,
}

/// The mathematical image of a `Record`.
pub ghost struct RecordV {
    pub id: u64,
    pub path: Seq<char>,
    pub value: serde_json::Value,
    pub expiry: u64,
}

impl View for Record {
    type V = RecordV;

    open spec fn view(&self) -> RecordV {
        RecordV { id: self.id, path: self.path@, value: self.value, expiry: self.expiry }
    }
}

/// The mathematical image of the whole store: its configuration, the next
/// unused identifier, and the sequence of stored records.
pub ghost struct StoreView {
    pub lifetime: u64,
    pub cascade_refresh: bool,
    pub next_id: u64,
    pub records: Seq<RecordV>,
}

/// The expiry instant of an entity touched at `now` under the configured
/// `lifetime`, saturating at the largest representable timestamp.
pub open spec fn expiry_at(now: u64, lifetime: u64) -> u64 {
    if now + lifetime > u64::MAX {
        u64::MAX
    } else {
        (now + lifetime) as u64
    }
}

/// A record is still alive at `now`: it expires strictly later.  A record
/// whose expiry is at or before `now` is due to be pruned.
pub open spec fn alive(r: RecordV, now: u64) -> bool {
    r.expiry > now
}

/// The records of `rs` that are still alive at `now`, in their original
/// order.  This is what a prune at `now` leaves behind.
pub open spec fn live_at(rs: Seq<RecordV>, now: u64) -> Seq<RecordV>
    decreases rs.len(),
{
    if rs.len() == 0 {
        Seq::empty()
    } else {
        let rest = live_at(rs.drop_last(), now);
        if alive(rs.last(), now) {
            rest.push(rs.last())
        } else {
            rest
        }
    }
}

/// The values of the records of `rs` whose owning path is covered by the
/// hierarchical query `q`, in their original order.
pub open spec fn matching_values(rs: Seq<RecordV>, q: Seq<char>) -> Seq<serde_json::Value>
    decreases rs.len(),
{
    if rs.len() == 0 {
        Seq::empty()
    } else {
        let rest = matching_values(rs.drop_last(), q);
        if covers(q, rs.last().path) {
            rest.push(rs.last().value)
        } else {
            rest
        }
    }
}

/// A read of path `q` extends the lifetime of record `r`: always when `r`
/// sits exactly at `q`, and additionally when `r` sits at a descendant of
/// `q` and cascading refresh is switched on.
pub open spec fn refresh_applies(r: RecordV, q: Seq<char>, cascade: bool) -> bool {
    r.path == q || (cascade && is_strict_descendant(q, r.path))
}

/// `r` after a read of `q`: the same record, with its expiry moved to `e`
/// when the refresh applies to it.
pub open spec fn refreshed_rec(r: RecordV, q: Seq<char>, cascade: bool, e: u64) -> RecordV {
    if refresh_applies(r, q, cascade) {
        RecordV { expiry: e, ..r }
    } else {
        r
    }
}

/// All of `rs` after a read of `q`, pointwise.
pub open spec fn refreshed(rs: Seq<RecordV>, q: Seq<char>, cascade: bool, e: u64) -> Seq<RecordV> {
    Seq::new(rs.len(), |i: int| refreshed_rec(rs[i], q, cascade, e))
}

/// No two records carry the same identifier.
pub open spec fn distinct_ids(rs: Seq<RecordV>) -> bool {
    forall|i: int, j: int|
        0 <= i < j < rs.len() ==> #[trigger] rs[i].id != #[trigger] rs[j].id
}

/// Every record's identifier lies below `bound`.
pub open spec fn ids_below(rs: Seq<RecordV>, bound: u64) -> bool {
    forall|i: int| 0 <= i < rs.len() ==> (#[trigger] rs[i].id) < bound
}

impl StoreView {
    /// Well-formedness of the store: identifiers are pairwise distinct and
    /// every identifier already handed out lies below `next_id`, so that
    /// `next_id` is genuinely unused.
    pub open spec fn wf(self) -> bool {
        &&& distinct_ids(self.records)
        &&& ids_below(self.records, self.next_id)
    }
}

/// The set of identifiers attached exactly at path `p`: the path index's
/// node set for `p`, derived from the record sequence.
pub open spec fn ids_at(rs: Seq<RecordV>, p: Seq<char>) -> Set<u64> {
    Set::new(
        |id: u64|
            exists|k: int| 0 <= k < rs.len() && (#[trigger] rs[k]).id == id && rs[k].path == p,
    )
}

/// The set of identifiers expiring exactly at instant `t`: the expiry
/// index's forward bucket for `t`, derived from the record sequence.
pub open spec fn expiry_bucket(rs: Seq<RecordV>, t: u64) -> Set<u64> {
    Set::new(
        |id: u64|
            exists|k: int| 0 <= k < rs.len() && (#[trigger] rs[k]).id == id && rs[k].expiry == t,
    )
}

/// The record a fresh insert of `value` under `path` at time `now` creates.
pub open spec fn fresh_record(v: StoreView, path: Seq<char>, value: serde_json::Value, now: u64) -> RecordV {
    RecordV { id: v.next_id, path: path, value: value, expiry: expiry_at(now, v.lifetime) }
}

/// The whole-store effect of an insert at time `now`: expired records are
/// pruned, then the fresh record is appended and the identifier counter
/// advances.
pub open spec fn after_insert(v: StoreView, path: Seq<char>, value: serde_json::Value, now: u64) -> StoreView {
    StoreView {
        next_id: (v.next_id + 1) as u64,
        records: live_at(v.records, now).push(fresh_record(v, path, value, now)),
        ..v
    }
}

/// The whole-store effect of a read of `q` at time `now`: expired records
/// are pruned, then every record the refresh applies to has its expiry moved
/// to `now + lifetime`.
pub open spec fn after_get(v: StoreView, q: Seq<char>, now: u64) -> StoreView {
    StoreView {
        records: refreshed(
            live_at(v.records, now),
            q,
            v.cascade_refresh,
            expiry_at(now, v.lifetime),
        ),
        ..v
    }
}

/// The values a read of `q` at time `now` returns: those of every surviving
/// record whose path `q` covers, reads being always hierarchical.
pub open spec fn get_result(v: StoreView, q: Seq<char>, now: u64) -> Seq<serde_json::Value> {
    matching_values(after_get(v, q, now).records, q)
}

/// Computes `expiry_at` executably.
pub fn compute_expiry(now: u64, lifetime: u64) -> (e: u64)
    ensures
        e == expiry_at(now, lifetime),
{
    if lifetime > u64::MAX - now {
        u64::MAX
    } else {
        now + lifetime
    }
}

/// The in-memory, sliding-TTL, hierarchical entity store.
pub struct StoreState {
    lifetime: u64,
    cascade_refresh: bool,
    next_id: u64,
    records: Vec<Record>,
}

impl View for StoreState {
    type V = StoreView;

    closed spec fn view(&self) -> StoreView {
        StoreView {
            lifetime: self.lifetime,
            cascade_refresh: self.cascade_refresh,
            next_id: self.next_id,
            records: self.records@.map_values(|r: Record| r@),
        }
    }
}

impl StoreState {
    /// A fresh, empty store with the given configuration: how many seconds
    /// an entity survives untouched, and whether a read refreshes
    /// descendant-path entities as well.
    pub fn new(lifetime: u64, cascade_refresh: bool) -> (s: Self)
        ensures
            s@.lifetime == lifetime,
            s@.cascade_refresh == cascade_refresh,
            s@.next_id == 0,
            s@.records == Seq::<RecordV>::empty(),
            s@.wf(),
    {
        let s = StoreState { lifetime, cascade_refresh, next_id: 0, records: Vec::new() };
        proof {
            assert(s@.records =~= Seq::<RecordV>::empty());
        }
        s
    }

    /// Removes every record whose expiry has passed, leaving the survivors
    /// in order; configuration and the identifier counter are untouched.
    pub fn prune(&mut self, now: u64)
        ensures
            final(self)@.records == live_at(old(self)@.records, now),
            final(self)@.lifetime == old(self)@.lifetime,
            final(self)@.cascade_refresh == old(self)@.cascade_refresh,
            final(self)@.next_id == old(self)@.next_id,
            old(self)@.wf() ==> final(self)@.wf(),
    {
        proof {
            if self@.wf() {
                lemma_live_at_wf_ids(self@.records, now, self@.next_id);
            }
        }
        let ghost orig: Seq<RecordV> = self@.records;
        let mut i: usize = 0;
        let ghost j: int = 0;
        while i < self.records.len()
            invariant
                0 <= j <= orig.len(),
                i == live_at(orig.take(j), now).len(),
                self@.records == live_at(orig.take(j), now) + orig.skip(j),
                i <= self@.records.len(),
                self@.lifetime == old(self)@.lifetime,
                self@.cascade_refresh == old(self)@.cascade_refresh,
                self@.next_id == old(self)@.next_id,
                orig == old(self)@.records,
            decreases orig.len() - j,
        {
            let ghost pre: Seq<RecordV> = self@.records;
            proof {
                assert(pre[i as int] == orig.skip(j)[0]);
                assert(orig.skip(j)[0] == orig[j]);
            }
            if self.records[i].expiry <= now {
                self.records.remove(i);
                proof {
                    assert(!alive(orig[j], now));
                    lemma_live_at_take_step(orig, now, j);
                    assert(self@.records =~= pre.remove(i as int));
                    assert(pre.remove(i as int) =~= live_at(orig.take(j + 1), now) + orig.skip(
                        j + 1,
                    ));
                    j = j + 1;
                }
            } else {
                i += 1;
                proof {
                    lemma_live_at_take_step(orig, now, j);
                    assert(self@.records =~= live_at(orig.take(j + 1), now) + orig.skip(j + 1));
                    j = j + 1;
                }
            }
        }
        proof {
            assert(j == orig.len());
            assert(orig.take(j) =~= orig);
            assert(self@.records =~= live_at(orig, now));
        }
    }

    /// Moves the expiry of every record a read of `path` applies to out to
    /// `now + lifetime`; every other record, and every other field of every
    /// record, is untouched.
    pub fn refresh_entity_lifetime(&mut self, path: &str, now: u64)
        ensures
            final(self)@.records == refreshed(
                old(self)@.records,
                path@,
                old(self)@.cascade_refresh,
                expiry_at(now, old(self)@.lifetime),
            ),
            final(self)@.lifetime == old(self)@.lifetime,
            final(self)@.cascade_refresh == old(self)@.cascade_refresh,
            final(self)@.next_id == old(self)@.next_id,
            old(self)@.wf() ==> final(self)@.wf(),
    {
        proof {
            if self@.wf() {
                lemma_refreshed_id_facts(
                    self@.records,
                    path@,
                    self@.cascade_refresh,
                    expiry_at(now, self@.lifetime),
                    self@.next_id,
                );
            }
        }
        let e = compute_expiry(now, self.lifetime);
        let ghost orig: Seq<RecordV> = self@.records;
        let ghost q: Seq<char> = path@;
        let ghost casc: bool = self@.cascade_refresh;
        let mut i: usize = 0;
        while i < self.records.len()
            invariant
                i <= self.records.len(),
                self@.records.len() == orig.len(),
                e == expiry_at(now, old(self)@.lifetime),
                casc == old(self)@.cascade_refresh,
                q == path@,
                orig == old(self)@.records,
                forall|k: int|
                    0 <= k < i ==> self@.records[k] == refreshed_rec(orig[k], q, casc, e),
                forall|k: int| i <= k < orig.len() ==> self@.records[k] == orig[k],
                self@.lifetime == old(self)@.lifetime,
                self@.cascade_refresh == old(self)@.cascade_refresh,
                self@.next_id == old(self)@.next_id,
            decreases orig.len() - i,
        {
            let ghost pre: Seq<RecordV> = self@.records;
            proof {
                assert(self@.records[i as int] == self.records@[i as int]@);
                assert(self@.records[i as int] == orig[i as int]);
            }
            let casc_now = self.cascade_refresh;
            proof {
                assert(casc_now == casc);
            }
            let rp = self.records[i].path.as_str();
            proof {
                assert(rp@ == orig[i as int].path);
            }
            let hit = if casc_now {
                path_covers(path, rp)
            } else {
                path_eq(path, rp)
            };
            proof {
                assert(hit == refresh_applies(orig[i as int], q, casc));
            }
            if hit {
                let mut r = self.records.remove(i);
                r.expiry = e;
                proof {
                    assert(r@ == refreshed_rec(orig[i as int], q, casc, e));
                }
                let ghost rv: RecordV = r@;
                self.records.insert(i, r);
                proof {
                    assert(self@.records =~= pre.update(i as int, rv));
                }
            }
            i += 1;
        }
        proof {
            assert(self@.records =~= refreshed(orig, q, casc, e));
        }
    }

    /// Prunes, then stores `value` under `path` as a fresh entity expiring
    /// at `now + lifetime`, and returns its identifier, which no earlier
    /// entity ever carried.
    pub fn insert(&mut self, path: String, value: serde_json::Value, now: u64) -> (id: u64)
        requires
            old(self)@.wf(),
            old(self)@.next_id < u64::MAX,
        ensures
            id == old(self)@.next_id,
            final(self)@ == after_insert(old(self)@, path@, value, now),
            final(self)@.wf(),
    {
        let ghost v0: StoreView = self@;
        self.prune(now);
        let id = self.next_id;
        let expiry = compute_expiry(now, self.lifetime);
        self.next_id = id + 1;
        let ghost p0: Seq<char> = path@;
        let rec = Record { id, path, value, expiry };
        let ghost pre: Seq<RecordV> = self@.records;
        self.records.push(rec);
        proof {
            assert(self@.records =~= pre.push(fresh_record(v0, p0, value, now)));
            assert(self@ == after_insert(v0, p0, value, now));
            let out = self@.records;
            assert forall|a: int, b: int| 0 <= a < b < out.len() implies out[a].id != out[b].id by {
                if b == out.len() - 1 {
                    assert(out[a] == pre[a]);
                    assert(out[a].id < v0.next_id);
                }
            }
            assert(distinct_ids(out));
            assert(ids_below(out, self@.next_id));
        }
        id
    }

    /// Prunes, refreshes the lifetime of every record a read of `path`
    /// applies to, and returns the values of every surviving record whose
    /// owning path `path` covers — reads are always hierarchical, whatever
    /// the cascade flag says.
    pub fn get(&mut self, path: &str, now: u64) -> (out: Vec<serde_json::Value>)
        requires
            old(self)@.wf(),
        ensures
            final(self)@ == after_get(old(self)@, path@, now),
            final(self)@.wf(),
            out@ == get_result(old(self)@, path@, now),
    {
        let ghost v0: StoreView = self@;
        self.prune(now);
        self.refresh_entity_lifetime(path, now);
        proof {
            assert(self@ == after_get(v0, path@, now));
        }
        let ghost rs: Seq<RecordV> = self@.records;
        let mut out: Vec<serde_json::Value> = Vec::new();
        let mut i: usize = 0;
        while i < self.records.len()
            invariant
                i <= self.records.len(),
                self@.records == rs,
                out@ == matching_values(rs.take(i as int), path@),
            decreases rs.len() - i,
        {
            proof {
                lemma_matching_values_take_step(rs, path@, i as int);
            }
            if path_covers(path, self.records[i].path.as_str()) {
                out.push(clone_value(&self.records[i].value));
            }
            i += 1;
        }
        proof {
            assert(rs.take(rs.len() as int) =~= rs);
        }
        out
    }

    /// Whether a fresh identifier is still available.  Unverified callers
    /// test this before an insert instead of relying on its precondition.
    pub fn has_capacity(&self) -> (b: bool)
        ensures
            b == (self@.next_id < u64::MAX),
    {
        self.next_id < u64::MAX
    }

    /// Stores `value` under `path` at the instant the wall clock reports,
    /// returning the fresh entity's identifier.  The clock reading is not
    /// under this function's control, so the contract promises the effect
    /// of `insert` at some instant.
    pub fn create_entity(&mut self, path: String, value: serde_json::Value) -> (id: u64)
        requires
            old(self)@.wf(),
            old(self)@.next_id < u64::MAX,
        ensures
            id == old(self)@.next_id,
            final(self)@.wf(),
            exists|now: u64| final(self)@ == #[trigger] after_insert(
                old(self)@,
                path@,
                value,
                now,
            ),
    {
        let now = get_now();
        let ghost v0: StoreView = self@;
        let ghost pv: Seq<char> = path@;
        let ghost vv: serde_json::Value = value;
        let id = self.insert(path, value, now);
        proof {
            assert(self@ == after_insert(v0, pv, vv, now));
        }
        id
    }

    /// Reads every entity at or beneath `path` at the instant the wall
    /// clock reports, refreshing lifetimes as configured.  The clock
    /// reading is not under this function's control, so the contract
    /// promises the effect of `get` at some instant.
    pub fn get_entities(&mut self, path: &str) -> (out: Vec<serde_json::Value>)
        requires
            old(self)@.wf(),
        ensures
            final(self)@.wf(),
            exists|now: u64|
                final(self)@ == #[trigger] after_get(old(self)@, path@, now) && out@
                    == get_result(old(self)@, path@, now),
    {
        let now = get_now();
        let ghost v0: StoreView = self@;
        let out = self.get(path, now);
        proof {
            assert(self@ == after_get(v0, path@, now) && out@ == get_result(v0, path@, now));
        }
        out
    }
}

/// Relies on `std::time::SystemTime::now` read through
/// `duration_since(UNIX_EPOCH)` and `Duration::as_secs`: the wall clock, as
/// whole seconds since the Unix epoch.  Nothing can be promised of the
/// reading.  If the clock reports an instant before the epoch, the process
/// aborts rather than compute expiries from an untrustworthy reading.
#[verifier::external_body]
fn get_now() -> u64 {
    std::time::SystemTime::now()
        .duration_since(std::time::UNIX_EPOCH)
        .expect("system time is before the start of the unix epoch")
        .as_secs()
}

/// Extending a processed prefix of `s` by one record extends its live part
/// by that record exactly when the record is still alive.
proof fn lemma_live_at_take_step(s: Seq<RecordV>, now: u64, j: int)
    requires
        0 <= j < s.len(),
    ensures
        live_at(s.take(j + 1), now) == if alive(s[j], now) {
            live_at(s.take(j), now).push(s[j])
        } else {
            live_at(s.take(j), now)
        },
{
    assert(s.take(j + 1).drop_last() =~= s.take(j));
    assert(s.take(j + 1).last() == s[j]);
}

/// Same step property for `matching_values`.
proof fn lemma_matching_values_take_step(s: Seq<RecordV>, q: Seq<char>, j: int)
    requires
        0 <= j < s.len(),
    ensures
        matching_values(s.take(j + 1), q) == if covers(q, s[j].path) {
            matching_values(s.take(j), q).push(s[j].value)
        } else {
            matching_values(s.take(j), q)
        },
{
    assert(s.take(j + 1).drop_last() =~= s.take(j));
    assert(s.take(j + 1).last() == s[j]);
}

/// Every record that survives a prune was present before it and was still
/// alive at the pruning instant.
pub proof fn lemma_live_at_contains(rs: Seq<RecordV>, now: u64, r: RecordV)
    requires
        live_at(rs, now).contains(r),
    ensures
        rs.contains(r),
        alive(r, now),
    decreases rs.len(),
{
    if rs.len() > 0 {
        let s = rs.drop_last();
        let l = live_at(s, now);
        if alive(rs.last(), now) && r == rs.last() {
            assert(rs[rs.len() - 1] == r);
        } else {
            assert(l.contains(r)) by {
                let full = live_at(rs, now);
                let k = choose|k: int| 0 <= k < full.len() && full[k] == r;
                if alive(rs.last(), now) {
                    assert(l[k] == r);
                } else {
                    assert(full == l);
                }
            }
            lemma_live_at_contains(s, now, r);
            let k2 = choose|k2: int| 0 <= k2 < s.len() && s[k2] == r;
            assert(rs[k2] == r);
        }
    }
}

/// Pruning keeps identifiers pairwise distinct and below any bound they
/// respected beforehand.
proof fn lemma_live_at_wf_ids(rs: Seq<RecordV>, now: u64, bound: u64)
    requires
        distinct_ids(rs),
        ids_below(rs, bound),
    ensures
        distinct_ids(live_at(rs, now)),
        ids_below(live_at(rs, now), bound),
    decreases rs.len(),
{
    if rs.len() > 0 {
        let s = rs.drop_last();
        assert forall|a: int, b: int| 0 <= a < b < s.len() implies s[a].id != s[b].id by {
            assert(s[a] == rs[a]);
            assert(s[b] == rs[b]);
        }
        assert forall|a: int| 0 <= a < s.len() implies (#[trigger] s[a].id) < bound by {
            assert(s[a] == rs[a]);
        }
        lemma_live_at_wf_ids(s, now, bound);
        if alive(rs.last(), now) {
            let l = live_at(s, now);
            let out = l.push(rs.last());
            assert forall|a: int, b: int| 0 <= a < b < out.len() implies out[a].id
                != out[b].id by {
                if b == out.len() - 1 {
                    assert(l.contains(out[a])) by {
                        assert(l[a] == out[a]);
                    }
                    lemma_live_at_contains(s, now, out[a]);
                    let k = choose|k: int| 0 <= k < s.len() && s[k] == out[a];
                    assert(rs[k] == out[a]);
                    assert(rs[k].id != rs[rs.len() - 1].id);
                }
            }
            assert forall|a: int| 0 <= a < out.len() implies (#[trigger] out[a].id) < bound by {
                if a < out.len() - 1 {
                    assert(out[a] == l[a]);
                }
            }
        }
    }
}

/// Refreshing changes only expiries: identifiers stay pairwise distinct and
/// below any bound they respected beforehand.
proof fn lemma_refreshed_id_facts(rs: Seq<RecordV>, q: Seq<char>, cascade: bool, e: u64, bound: u64)
    requires
        distinct_ids(rs),
        ids_below(rs, bound),
    ensures
        distinct_ids(refreshed(rs, q, cascade, e)),
        ids_below(refreshed(rs, q, cascade, e), bound),
{
    let out = refreshed(rs, q, cascade, e);
    assert forall|a: int| 0 <= a < out.len() implies (#[trigger] out[a].id) == rs[a].id by {
        assert(out[a] == refreshed_rec(rs[a], q, cascade, e));
    }
}

} // verus!

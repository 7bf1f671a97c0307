//! The assembly objects behind open connections: the data each connection
//! carries, when it is next due for cyclic transmission and when it was last
//! heard from.
//!
//! Times are milliseconds on a monotonic clock that the caller reads.
use vstd::prelude::*;

use vstd::slice::slice_to_vec;

use crate::assembly_laws::{
    lemma_activity_plain, lemma_register_plain, lemma_timeout_plain, lemma_transmit_plain,
};

verus! {

/// The number of data bytes a freshly registered assembly carries.
pub const ASSEMBLY_DATA_LEN: usize = 4;

/// The assembly of one connection.
#[derive(Debug, Clone)]
pub struct AssemblyObject {
    pub connection_id: u32,
    pub data: Vec<u8>,
    /// Requested packet interval in milliseconds.
    pub rpi_ms: u32,
    /// When the assembly is next due for transmission.
    pub next_send_time: u64,
    /// When the connection was last heard from.
    pub last_activity: u64,
}

/// The mathematical value of an [`AssemblyObject`].
pub struct AssemblyRecord {
    pub connection_id: u32,
    pub data: Seq<u8>,
    pub rpi_ms: u32,
    pub next_send_time: u64,
    pub last_activity: u64,
}

impl View for AssemblyObject {
    type V = AssemblyRecord;

    open spec fn view(&self) -> AssemblyRecord {
        AssemblyRecord {
            connection_id: self.connection_id,
            data: self.data@,
            rpi_ms: self.rpi_ms,
            next_send_time: self.next_send_time,
            last_activity: self.last_activity,
        }
    }
}

/// The values of a sequence of assembly objects.
pub open spec fn records(v: Seq<AssemblyObject>) -> Seq<AssemblyRecord> {
    v.map_values(|a: AssemblyObject| a@)
}

/// The assembly that registering `connection_id` at `now` creates: four zero
/// data bytes, first due one interval after `now`, last heard from at `now`.
pub open spec fn fresh_assembly(connection_id: u32, rpi_ms: u32, now: u64) -> AssemblyRecord {
    AssemblyRecord {
        connection_id,
        data: zero_data(),
        rpi_ms,
        next_send_time: (now + rpi_ms) as u64,
        last_activity: now,
    }
}

/// Whether `r` is due for transmission at `now`.
pub open spec fn is_ready(r: AssemblyRecord, now: u64) -> bool {
    now >= r.next_send_time
}

/// `r` after a transmission at `now`: due again one interval later.
pub open spec fn rescheduled(r: AssemblyRecord, now: u64) -> AssemblyRecord {
    AssemblyRecord { next_send_time: (now + r.rpi_ms) as u64, ..r }
}

/// `r` after activity was seen at `now`.
pub open spec fn touched(r: AssemblyRecord, now: u64) -> AssemblyRecord {
    AssemblyRecord { last_activity: now, ..r }
}

/// The milliseconds from `since` to `now`; zero when `since` is later than `now`.
pub open spec fn elapsed_ms(now: u64, since: u64) -> int {
    if now >= since {
        now - since
    } else {
        0
    }
}

/// Whether `r` has been heard from within `timeout_ms` of `now`.
pub open spec fn is_alive(r: AssemblyRecord, now: u64, timeout_ms: u64) -> bool {
    elapsed_ms(now, r.last_activity) < timeout_ms
}

/// The test for records due at `now`.
pub open spec fn ready_pred(now: u64) -> spec_fn(AssemblyRecord) -> bool {
    |r: AssemblyRecord| is_ready(r, now)
}

/// The test for records still alive at `now`.
pub open spec fn alive_pred(now: u64, timeout_ms: u64) -> spec_fn(AssemblyRecord) -> bool {
    |r: AssemblyRecord| is_alive(r, now, timeout_ms)
}

/// The test for records timed out at `now`.
pub open spec fn expired_pred(now: u64, timeout_ms: u64) -> spec_fn(AssemblyRecord) -> bool {
    |r: AssemblyRecord| !is_alive(r, now, timeout_ms)
}

/// Whether some record of `s` belongs to `connection_id`.
pub open spec fn has_id(s: Seq<AssemblyRecord>, connection_id: u32) -> bool {
    exists|i: int| 0 <= i < s.len() && s[i].connection_id == connection_id
}

/// No two records of `s` belong to the same connection.
pub open spec fn ids_unique(s: Seq<AssemblyRecord>) -> bool {
    forall|i: int, j: int|
        0 <= i < s.len() && 0 <= j < s.len() && i != j ==> s[i].connection_id
            != s[j].connection_id
}

/// The data every assembly carries: [`ASSEMBLY_DATA_LEN`] zero bytes.
pub open spec fn zero_data() -> Seq<u8> {
    seq![0u8, 0u8, 0u8, 0u8]
}

/// Every record of `s` carries four zero bytes of data.
pub open spec fn data_zeroed(s: Seq<AssemblyRecord>) -> bool {
    forall|i: int| 0 <= i < s.len() ==> #[trigger] s[i].data == zero_data()
}

/// The table after registering `connection_id`: an existing record of that
/// connection is replaced in place by a fresh one; otherwise the fresh one is
/// appended.
pub open spec fn after_register(
    s: Seq<AssemblyRecord>,
    connection_id: u32,
    rpi_ms: u32,
    now: u64,
) -> Seq<AssemblyRecord> {
    if has_id(s, connection_id) {
        s.map_values(
            |r: AssemblyRecord|
                if r.connection_id == connection_id {
                    fresh_assembly(connection_id, rpi_ms, now)
                } else {
                    r
                },
        )
    } else {
        s.push(fresh_assembly(connection_id, rpi_ms, now))
    }
}

/// The table after activity on `connection_id` was seen at `now`.
pub open spec fn after_activity(s: Seq<AssemblyRecord>, connection_id: u32, now: u64) -> Seq<
    AssemblyRecord,
> {
    s.map_values(
        |r: AssemblyRecord|
            if r.connection_id == connection_id {
                touched(r, now)
            } else {
                r
            },
    )
}

/// The records due for transmission at `now`, in table order.
pub open spec fn ready_records(s: Seq<AssemblyRecord>, now: u64) -> Seq<AssemblyRecord> {
    s.filter(ready_pred(now))
}

/// The table after the records due at `now` were transmitted.
pub open spec fn after_transmit(s: Seq<AssemblyRecord>, now: u64) -> Seq<AssemblyRecord> {
    s.map_values(
        |r: AssemblyRecord|
            if is_ready(r, now) {
                rescheduled(r, now)
            } else {
                r
            },
    )
}

/// Rescheduling every record due at `now` stays within the clock's range.
pub open spec fn can_reschedule(s: Seq<AssemblyRecord>, now: u64) -> bool {
    forall|i: int| 0 <= i < s.len() && is_ready(s[i], now) ==> now + s[i].rpi_ms <= u64::MAX
}

/// The records still alive at `now`, in table order.
pub open spec fn live_records(s: Seq<AssemblyRecord>, now: u64, timeout_ms: u64) -> Seq<
    AssemblyRecord,
> {
    s.filter(alive_pred(now, timeout_ms))
}

/// The connections of the records that timed out at `now`, in table order.
pub open spec fn expired_ids(s: Seq<AssemblyRecord>, now: u64, timeout_ms: u64) -> Seq<u32> {
    s.filter(expired_pred(now, timeout_ms)).map_values(|r: AssemblyRecord| r.connection_id)
}

/// The assemblies of all open connections, at most one per connection, in
/// registration order. Transmissions and cleanups walk the table in that
/// order and change or drop entries where they stand.
pub struct AssemblyManager {
    assemblies: Vec<AssemblyObject>,
}

impl View for AssemblyManager {
    type V = Seq<AssemblyRecord>;

    closed spec fn view(&self) -> Seq<AssemblyRecord> {
        records(self.assemblies@)
    }
}

/// A copy of an assembly object.
fn copy_assembly(a: &AssemblyObject) -> (r: AssemblyObject)
    ensures
        r@ == a@,
{
    AssemblyObject {
        connection_id: a.connection_id,
        data: slice_to_vec(a.data.as_slice()),
        rpi_ms: a.rpi_ms,
        next_send_time: a.next_send_time,
        last_activity: a.last_activity,
    }
}

/// An assembly object with no data, to fill a slot whose object was taken out.
fn vacant_assembly() -> (r: AssemblyObject)
    ensures
        r@ == (AssemblyRecord {
            connection_id: 0,
            data: Seq::<u8>::empty(),
            rpi_ms: 0,
            next_send_time: 0,
            last_activity: 0,
        }),
{
    AssemblyObject {
        connection_id: 0,
        data: Vec::new(),
        rpi_ms: 0,
        next_send_time: 0,
        last_activity: 0,
    }
}

impl AssemblyManager {
    /// The table is well formed: no connection has two assemblies, and each
    /// assembly carries four zero bytes of data. Every table is.
    #[verifier::type_invariant]
    pub open spec fn well_formed(self) -> bool {
        ids_unique(self@) && data_zeroed(self@)
    }

    /// An empty table.
    pub fn new() -> (r: Self)
        ensures
            r@ == Seq::<AssemblyRecord>::empty(),
    {
        let r = AssemblyManager { assemblies: Vec::new() };
        assert(r@ =~= Seq::<AssemblyRecord>::empty());
        r
    }

    /// Registers the assembly of `connection_id` at `now`: four zero bytes of
    /// data, first due `rpi_ms` after `now`, last heard from at `now`. An
    /// assembly the connection already had is replaced.
    pub fn register(&mut self, connection_id: u32, rpi_ms: u32, now: u64)
        requires
            now + rpi_ms <= u64::MAX,
        ensures
            final(self)@ == after_register(old(self)@, connection_id, rpi_ms, now),
            exists|i: int|
                0 <= i < final(self)@.len() && (#[trigger] final(self)@[i]).connection_id
                    == connection_id,
            forall|i: int|
                0 <= i < final(self)@.len() && (#[trigger] final(self)@[i]).connection_id
                    == connection_id ==> {
                    &&& final(self)@[i].data == seq![0u8, 0u8, 0u8, 0u8]
                    &&& final(self)@[i].rpi_ms == rpi_ms
                    &&& final(self)@[i].next_send_time == now + rpi_ms
                    &&& final(self)@[i].last_activity == now
                },
            forall|r: AssemblyRecord|
                r.connection_id != connection_id ==> (#[trigger] final(self)@.contains(r)
                    <==> old(self)@.contains(r)),
    {
        proof {
            lemma_register_plain(self@, connection_id, rpi_ms, now);
        }
        proof {
            use_type_invariant(&*self);
        }
        let ghost s = self@;
        let mut v: Vec<AssemblyObject> = Vec::new();
        std::mem::swap(&mut v, &mut self.assemblies);
        let fresh = AssemblyObject {
            connection_id,
            data: vec![0u8, 0u8, 0u8, 0u8],
            rpi_ms,
            next_send_time: now + rpi_ms as u64,
            last_activity: now,
        };
        assert(fresh@.data =~= seq![0u8, 0u8, 0u8, 0u8]);
        let n = v.len();
        let mut i: usize = 0;
        while i < n
            invariant
                n == v.len(),
                s == records(v@),
                s == old(self)@,
                ids_unique(s),
                data_zeroed(s),
                now + rpi_ms <= u64::MAX,
                fresh@ == fresh_assembly(connection_id, rpi_ms, now),
                0 <= i <= n,
                forall|j: int| 0 <= j < i ==> s[j].connection_id != connection_id,
            decreases n - i,
        {
            proof {
                assert(s[i as int] == v@[i as int]@);
            }
            if v[i].connection_id == connection_id {
                let ghost before = v@;
                v.set(i, fresh);
                proof {
                    let f = |r: AssemblyRecord|
                        if r.connection_id == connection_id {
                            fresh_assembly(connection_id, rpi_ms, now)
                        } else {
                            r
                        };
                    assert(has_id(s, connection_id));
                    assert forall|j: int| 0 <= j < s.len() implies #[trigger] records(v@)[j] == f(s[j]) by {
                        assert(records(v@)[j] == v@[j]@);
                        if j != i {
                            assert(v@[j] == before[j]);
                            assert(s[j] == before[j]@);
                            assert(s[j].connection_id != connection_id);
                        }
                    }
                    assert(records(v@) =~= s.map_values(f));
                }
                proof {
                    lemma_register_plain(s, connection_id, rpi_ms, now);
                }
                self.assemblies = v;
                return;
            }
            i += 1;
        }
        v.push(fresh);
        assert(records(v@) =~= s.push(fresh_assembly(connection_id, rpi_ms, now)));
        self.assemblies = v;
    }

    /// Records activity on `connection_id` at `now`; a connection without an
    /// assembly leaves the table as it was.
    pub fn update_activity(&mut self, connection_id: u32, now: u64)
        requires
        ensures
            final(self)@ == after_activity(old(self)@, connection_id, now),
            final(self)@.len() == old(self)@.len(),
            forall|i: int|
                0 <= i < old(self)@.len() ==> {
                    let r = #[trigger] final(self)@[i];
                    &&& r.last_activity == (if old(self)@[i].connection_id == connection_id {
                        now
                    } else {
                        old(self)@[i].last_activity
                    })
                    &&& r.connection_id == old(self)@[i].connection_id
                    &&& r.data == old(self)@[i].data
                    &&& r.rpi_ms == old(self)@[i].rpi_ms
                    &&& r.next_send_time == old(self)@[i].next_send_time
                },
    {
        proof {
            lemma_activity_plain(self@, connection_id, now);
        }
        proof {
            use_type_invariant(&*self);
        }
        let ghost s = self@;
        let mut v: Vec<AssemblyObject> = Vec::new();
        std::mem::swap(&mut v, &mut self.assemblies);
        let n = v.len();
        let mut i: usize = 0;
        while i < n
            invariant
                n == v.len(),
                s == records(v@),
                s == old(self)@,
                ids_unique(s),
                data_zeroed(s),
                0 <= i <= n,
                forall|j: int| 0 <= j < i ==> s[j].connection_id != connection_id,
            decreases n - i,
        {
            proof {
                assert(s[i as int] == v@[i as int]@);
            }
            if v[i].connection_id == connection_id {
                let ghost before = v@;
                let mut item = vacant_assembly();
                v.set_and_swap(i, &mut item);
                item.last_activity = now;
                v.set(i, item);
                proof {
                    let t = after_activity(s, connection_id, now);
                    assert forall|j: int| 0 <= j < s.len() implies #[trigger] records(v@)[j] == t[j] by {
                        assert(records(v@)[j] == v@[j]@);
                        assert(s[j] == before[j]@);
                        if j != i {
                            assert(v@[j] == before[j]);
                            assert(s[j].connection_id != connection_id);
                        } else {
                            assert(s[j].connection_id == connection_id);
                            assert(v@[j]@ == touched(s[j], now));
                        }
                    }
                    assert(records(v@) =~= t);
                }
                self.assemblies = v;
                return;
            }
            i += 1;
        }
        assert(s =~= after_activity(s, connection_id, now));
        self.assemblies = v;
    }

    /// Returns a copy of every assembly due at `now`, in table order, and
    /// schedules each of them one interval after `now`.
    pub fn get_ready_transmissions(&mut self, now: u64) -> (ready: Vec<AssemblyObject>)
        requires
            can_reschedule(old(self)@, now),
        ensures
            records(ready@) == ready_records(old(self)@, now),
            forall|i: int| 0 <= i < ready@.len() ==> #[trigger] ready@[i].data@ == zero_data(),
            final(self)@ == after_transmit(old(self)@, now),
            forall|r: AssemblyRecord|
                #[trigger] records(ready@).contains(r) <==> old(self)@.contains(r) && now
                    >= r.next_send_time,
            final(self)@.len() == old(self)@.len(),
            forall|i: int|
                0 <= i < old(self)@.len() ==> {
                    let r = #[trigger] final(self)@[i];
                    &&& r.next_send_time == (if now >= old(self)@[i].next_send_time {
                        now + old(self)@[i].rpi_ms
                    } else {
                        old(self)@[i].next_send_time as int
                    })
                    &&& r.connection_id == old(self)@[i].connection_id
                    &&& r.data == old(self)@[i].data
                    &&& r.rpi_ms == old(self)@[i].rpi_ms
                    &&& r.last_activity == old(self)@[i].last_activity
                },
    {
        proof {
            lemma_transmit_plain(self@, now);
        }
        proof {
            use_type_invariant(&*self);
        }
        let ghost s = self@;
        let mut v: Vec<AssemblyObject> = Vec::new();
        std::mem::swap(&mut v, &mut self.assemblies);
        let mut ready: Vec<AssemblyObject> = Vec::new();
        let n = v.len();
        let mut i: usize = 0;
        while i < n
            invariant
                n == v.len(),
                n == s.len(),
                ids_unique(s),
                data_zeroed(s),
                forall|j: int| 0 <= j < ready@.len() ==> #[trigger] ready@[j].data@ == zero_data(),
                can_reschedule(s, now),
                0 <= i <= n,
                forall|j: int|
                    0 <= j < i ==> #[trigger] records(v@)[j] == (if is_ready(
                        s[j],
                        now,
                    ) {
                        rescheduled(s[j], now)
                    } else {
                        s[j]
                    }),
                forall|j: int| i <= j < n ==> #[trigger] records(v@)[j] == s[j],
                records(ready@) == s.take(i as int).filter(ready_pred(now)),
            decreases n - i,
        {
            let ghost before = v@;
            proof {
                assert(records(v@)[i as int] == s[i as int]);
            }
            if now >= v[i].next_send_time {
                let mut item = vacant_assembly();
                v.set_and_swap(i, &mut item);
                proof {
                    assert(item@ == s[i as int]);
                    assert(s[i as int].data == zero_data());
                }
                ready.push(copy_assembly(&item));
                item.next_send_time = now + item.rpi_ms as u64;
                v.set(i, item);
            }
            proof {
                reveal(Seq::filter);
                assert(s.take(i + 1).drop_last() =~= s.take(i as int));
                assert forall|j: int| 0 <= j < n && j != i implies #[trigger] records(
                    v@,
                )[j] == records(before)[j] by {}
                assert(records(ready@) =~= s.take(i + 1).filter(ready_pred(now)));
            }
            i += 1;
        }
        proof {
            assert(s.take(n as int) =~= s);
            assert(records(v@) =~= after_transmit(s, now));
        }
        self.assemblies = v;
        ready
    }

    /// Removes every assembly not heard from within `timeout_ms` of `now` and
    /// returns their connection ids in table order.
    pub fn cleanup_timed_out_connections(&mut self, timeout_ms: u64, now: u64) -> (removed: Vec<
        u32,
    >)
        requires
        ensures
            removed@ == expired_ids(old(self)@, now, timeout_ms),
            final(self)@ == live_records(old(self)@, now, timeout_ms),
            forall|id: u32|
                #[trigger] removed@.contains(id) <==> exists|j: int|
                    0 <= j < old(self)@.len() && #[trigger] old(self)@[j].connection_id == id
                        && (if now >= old(self)@[j].last_activity {
                        now - old(self)@[j].last_activity >= timeout_ms
                    } else {
                        timeout_ms == 0
                    }),
            forall|r: AssemblyRecord|
                #[trigger] final(self)@.contains(r) <==> old(self)@.contains(r) && (if now
                    >= r.last_activity {
                    now - r.last_activity < timeout_ms
                } else {
                    0 < timeout_ms
                }),
    {
        proof {
            lemma_timeout_plain(self@, now, timeout_ms);
        }
        proof {
            use_type_invariant(&*self);
        }
        let ghost s = self@;
        let mut taken: Vec<AssemblyObject> = Vec::new();
        std::mem::swap(&mut taken, &mut self.assemblies);
        let mut kept: Vec<AssemblyObject> = Vec::new();
        let mut removed: Vec<u32> = Vec::new();
        let n = taken.len();
        let mut i: usize = 0;
        while i < n
            invariant
                n == taken.len(),
                n == s.len(),
                ids_unique(s),
                data_zeroed(s),
                0 <= i <= n,
                forall|j: int| i <= j < n ==> #[trigger] records(taken@)[j] == s[j],
                records(kept@) == s.take(i as int).filter(alive_pred(now, timeout_ms)),
                removed@ == s.take(i as int).filter(expired_pred(now, timeout_ms)).map_values(
                    |r: AssemblyRecord| r.connection_id,
                ),
            decreases n - i,
        {
            proof {
                assert(records(taken@)[i as int] == s[i as int]);
            }
            let ghost tb = taken@;
            let mut item = vacant_assembly();
            taken.set_and_swap(i, &mut item);
            let elapsed: u64 = if now >= item.last_activity {
                now - item.last_activity
            } else {
                0
            };
            let ghost kept_before = records(kept@);
            if elapsed < timeout_ms {
                kept.push(item);
            } else {
                removed.push(item.connection_id);
            }
            proof {
                reveal(Seq::filter);
                assert(s.take(i + 1).drop_last() =~= s.take(i as int));
                assert(records(kept@) =~= s.take(i + 1).filter(alive_pred(now, timeout_ms)));
                assert(removed@ =~= s.take(i + 1).filter(expired_pred(now, timeout_ms)).map_values(
                    |r: AssemblyRecord| r.connection_id,
                ));
                assert forall|j: int| i + 1 <= j < n implies #[trigger] records(taken@)[j]
                    == s[j] by {
                    assert(taken@[j] == tb[j]);
                    assert(records(tb)[j] == s[j]);
                }
            }
            i += 1;
        }
        proof {
            assert(s.take(n as int) =~= s);
            lemma_filter_keeps_unique_ids(s, alive_pred(now, timeout_ms));
            let kept_s = s.filter(alive_pred(now, timeout_ms));
            assert forall|k: int| 0 <= k < kept_s.len() implies #[trigger] kept_s[k].data
                == zero_data() by {
                let j = choose|j: int| 0 <= j < s.len() && s[j] == kept_s[k];
            }
        }
        proof {
            lemma_timeout_plain(s, now, timeout_ms);
            assert(s == old(self)@);
            assert(removed@ == expired_ids(s, now, timeout_ms));
            assert forall|id: u32| #[trigger] removed@.contains(id) <==> exists|j: int|
                0 <= j < s.len() && #[trigger] s[j].connection_id == id && (if now
                    >= s[j].last_activity {
                    now - s[j].last_activity >= timeout_ms
                } else {
                    timeout_ms == 0
                }) by {
                assert(removed@.contains(id) == expired_ids(s, now, timeout_ms).contains(id));
            }
        }
        self.assemblies = kept;
        removed
    }
}

/// Filtering a table keeps its connection ids unique.
pub proof fn lemma_filter_keeps_unique_ids(s: Seq<AssemblyRecord>, p: spec_fn(AssemblyRecord) -> bool)
    requires
        ids_unique(s),
    ensures
        ids_unique(s.filter(p)),
        forall|k: int|
            0 <= k < s.filter(p).len() ==> exists|j: int|
                0 <= j < s.len() && s[j] == #[trigger] s.filter(p)[k],
    decreases s.len(),
{
    reveal(Seq::filter);
    if s.len() > 0 {
        let init = s.drop_last();
        assert(ids_unique(init));
        lemma_filter_keeps_unique_ids(init, p);
        let f = init.filter(p);
        assert forall|k: int| 0 <= k < f.len() implies #[trigger] f[k].connection_id
            != s.last().connection_id by {
            let j = choose|j: int| 0 <= j < init.len() && init[j] == f[k];
            assert(s[j] == init[j]);
        }
        assert forall|k: int| 0 <= k < s.filter(p).len() implies exists|j: int|
            0 <= j < s.len() && s[j] == #[trigger] s.filter(p)[k] by {
            if k < f.len() {
                let j = choose|j: int| 0 <= j < init.len() && init[j] == f[k];
                assert(s[j] == init[j]);
                assert(s.filter(p)[k] == f[k]);
            } else {
                assert(s[s.len() - 1] == s.last());
            }
        }
    }
}

/// A connection has a record among those of `t` that `p` keeps exactly when
/// one of its records in `t` satisfies `p`.
pub proof fn lemma_filter_has_id(
    t: Seq<AssemblyRecord>,
    p: spec_fn(AssemblyRecord) -> bool,
    connection_id: u32,
)
    ensures
        has_id(t.filter(p), connection_id) <==> exists|j: int|
            0 <= j < t.len() && t[j].connection_id == connection_id && #[trigger] p(t[j]),
{
    broadcast use vstd::seq_lib::group_filter_ensures;

    let f = t.filter(p);
    if has_id(f, connection_id) {
        let k = choose|k: int| 0 <= k < f.len() && f[k].connection_id == connection_id;
        assert(f.contains(f[k]));
        t.lemma_filter_contains_rev(p, f[k]);
        let j = choose|j: int| 0 <= j < t.len() && t[j] == f[k];
        assert(p(t[j]));
    }
    if exists|j: int| 0 <= j < t.len() && t[j].connection_id == connection_id && #[trigger] p(t[j]) {
        let j = choose|j: int|
            0 <= j < t.len() && t[j].connection_id == connection_id && #[trigger] p(t[j]);
        t.lemma_filter_contains(p, j);
        let k = choose|k: int| 0 <= k < f.len() && f[k] == t[j];
        assert(f[k].connection_id == connection_id);
    }
}

/// After `connection_id` is registered, its one record is the fresh one.
pub proof fn lemma_registered_record(s: Seq<AssemblyRecord>, connection_id: u32, rpi_ms: u32, now: u64)
    ensures
        has_id(after_register(s, connection_id, rpi_ms, now), connection_id),
        forall|j: int|
            0 <= j < after_register(s, connection_id, rpi_ms, now).len() && (#[trigger] after_register(
                s,
                connection_id,
                rpi_ms,
                now,
            )[j]).connection_id == connection_id ==> after_register(s, connection_id, rpi_ms, now)[j]
                == fresh_assembly(connection_id, rpi_ms, now),
{
    let t = after_register(s, connection_id, rpi_ms, now);
    if has_id(s, connection_id) {
        let i = choose|i: int| 0 <= i < s.len() && s[i].connection_id == connection_id;
        assert(t[i] == fresh_assembly(connection_id, rpi_ms, now));
    } else {
        assert(t[s.len() as int] == fresh_assembly(connection_id, rpi_ms, now));
        assert forall|j: int| 0 <= j < s.len() implies #[trigger] t[j].connection_id != connection_id by {
            assert(t[j] == s[j]);
        }
    }
}

/// A registered connection is first due for transmission one interval after
/// it was registered: it is among the records due at `now` exactly when `now`
/// is at least `rpi_ms` past the registration.
pub proof fn lemma_registered_due_after_interval(
    s: Seq<AssemblyRecord>,
    connection_id: u32,
    rpi_ms: u32,
    registered_at: u64,
    now: u64,
)
    requires
        registered_at + rpi_ms <= u64::MAX,
    ensures
        has_id(ready_records(after_register(s, connection_id, rpi_ms, registered_at), now), connection_id)
            <==> now >= registered_at + rpi_ms,
{
    let t = after_register(s, connection_id, rpi_ms, registered_at);
    lemma_registered_record(s, connection_id, rpi_ms, registered_at);
    lemma_filter_has_id(t, ready_pred(now), connection_id);
    let i = choose|i: int| 0 <= i < t.len() && t[i].connection_id == connection_id;
    assert(ready_pred(now)(t[i]) == (now >= registered_at + rpi_ms));
}

/// A registered connection that is not heard from again times out exactly
/// when `timeout_ms` have passed since its registration.
pub proof fn lemma_registered_times_out(
    s: Seq<AssemblyRecord>,
    connection_id: u32,
    rpi_ms: u32,
    registered_at: u64,
    now: u64,
    timeout_ms: u64,
)
    ensures
        expired_ids(after_register(s, connection_id, rpi_ms, registered_at), now, timeout_ms).contains(
            connection_id,
        ) <==> elapsed_ms(now, registered_at) >= timeout_ms,
        has_id(live_records(after_register(s, connection_id, rpi_ms, registered_at), now, timeout_ms), connection_id)
            <==> elapsed_ms(now, registered_at) < timeout_ms,
{
    let t = after_register(s, connection_id, rpi_ms, registered_at);
    lemma_registered_record(s, connection_id, rpi_ms, registered_at);
    lemma_filter_has_id(t, expired_pred(now, timeout_ms), connection_id);
    lemma_filter_has_id(t, alive_pred(now, timeout_ms), connection_id);
    let i = choose|i: int| 0 <= i < t.len() && t[i].connection_id == connection_id;
    assert(expired_pred(now, timeout_ms)(t[i]) == (elapsed_ms(now, registered_at) >= timeout_ms));
    assert(alive_pred(now, timeout_ms)(t[i]) == (elapsed_ms(now, registered_at) < timeout_ms));
    let e = t.filter(expired_pred(now, timeout_ms));
    let ids = expired_ids(t, now, timeout_ms);
    if ids.contains(connection_id) {
        let k = choose|k: int| 0 <= k < ids.len() && ids[k] == connection_id;
        assert(e[k].connection_id == connection_id);
    }
    if has_id(e, connection_id) {
        let k = choose|k: int| 0 <= k < e.len() && e[k].connection_id == connection_id;
        assert(ids[k] == connection_id);
    }
}

/// Activity keeps a connection alive: right after activity on a connection
/// that has an assembly, a cleanup at the same time with any positive timeout
/// keeps it.
pub proof fn lemma_activity_keeps_alive(
    s: Seq<AssemblyRecord>,
    connection_id: u32,
    now: u64,
    timeout_ms: u64,
)
    requires
        has_id(s, connection_id),
        timeout_ms > 0,
    ensures
        has_id(live_records(after_activity(s, connection_id, now), now, timeout_ms), connection_id),
{
    let t = after_activity(s, connection_id, now);
    let i = choose|i: int| 0 <= i < s.len() && s[i].connection_id == connection_id;
    assert(t[i] == touched(s[i], now));
    assert(alive_pred(now, timeout_ms)(t[i]));
    lemma_filter_has_id(t, alive_pred(now, timeout_ms), connection_id);
}

/// Filtering by a test that every record passes keeps every record.
proof fn lemma_filter_all(s: Seq<AssemblyRecord>, p: spec_fn(AssemblyRecord) -> bool)
    requires
        forall|i: int| 0 <= i < s.len() ==> #[trigger] p(s[i]),
    ensures
        s.filter(p) == s,
    decreases s.len(),
{
    reveal(Seq::filter);
    if s.len() > 0 {
        lemma_filter_all(s.drop_last(), p);
        assert(p(s[s.len() - 1]));
        assert(s.drop_last().push(s.last()) =~= s);
    }
}

/// Filtering by a test that no record passes keeps nothing.
proof fn lemma_filter_none(s: Seq<AssemblyRecord>, p: spec_fn(AssemblyRecord) -> bool)
    requires
        forall|i: int| 0 <= i < s.len() ==> !#[trigger] p(s[i]),
    ensures
        s.filter(p) == Seq::<AssemblyRecord>::empty(),
    decreases s.len(),
{
    reveal(Seq::filter);
    if s.len() > 0 {
        lemma_filter_none(s.drop_last(), p);
        assert(!p(s[s.len() - 1]));
    }
}

/// A cleanup leaves only live assemblies: a second cleanup at the same time
/// with the same timeout removes nothing and changes nothing.
pub proof fn lemma_cleanup_idempotent(s: Seq<AssemblyRecord>, now: u64, timeout_ms: u64)
    ensures
        live_records(live_records(s, now, timeout_ms), now, timeout_ms) == live_records(
            s,
            now,
            timeout_ms,
        ),
        expired_ids(live_records(s, now, timeout_ms), now, timeout_ms) == Seq::<u32>::empty(),
{
    broadcast use vstd::seq_lib::group_filter_ensures;

    let l = live_records(s, now, timeout_ms);
    assert forall|i: int| 0 <= i < l.len() implies #[trigger] alive_pred(now, timeout_ms)(l[i]) by {}
    lemma_filter_all(l, alive_pred(now, timeout_ms));
    assert forall|i: int| 0 <= i < l.len() implies !#[trigger] expired_pred(now, timeout_ms)(l[i]) by {
        assert(alive_pred(now, timeout_ms)(l[i]));
    }
    lemma_filter_none(l, expired_pred(now, timeout_ms));
    assert(expired_ids(l, now, timeout_ms) =~= Seq::<u32>::empty());
}

/// A transmission reschedules what it sends: right after the transmission at
/// `now`, the only assemblies still due at `now` are those with a zero interval.
pub proof fn lemma_transmit_reschedules(s: Seq<AssemblyRecord>, now: u64)
    requires
        can_reschedule(s, now),
    ensures
        forall|k: int|
            0 <= k < ready_records(after_transmit(s, now), now).len() ==> (#[trigger] ready_records(
                after_transmit(s, now),
                now,
            )[k]).rpi_ms == 0,
{
    broadcast use vstd::seq_lib::group_filter_ensures;

    let t = after_transmit(s, now);
    let r = ready_records(t, now);
    assert forall|k: int| 0 <= k < r.len() implies (#[trigger] r[k]).rpi_ms == 0 by {
        assert(r.contains(r[k]));
        t.lemma_filter_contains_rev(ready_pred(now), r[k]);
        let j = choose|j: int| 0 <= j < t.len() && t[j] == r[k];
        assert(ready_pred(now)(r[k]));
        if is_ready(s[j], now) {
            assert(t[j] == rescheduled(s[j], now));
        } else {
            assert(t[j] == s[j]);
        }
    }
}

/// Registering, activity and transmission keep every connection's assembly:
/// a connection with a record before has one after.
pub proof fn lemma_updates_keep_ids(
    s: Seq<AssemblyRecord>,
    connection_id: u32,
    rpi_ms: u32,
    now: u64,
    other: u32,
)
    requires
        has_id(s, other),
    ensures
        has_id(after_register(s, connection_id, rpi_ms, now), other),
        has_id(after_activity(s, connection_id, now), other),
        has_id(after_transmit(s, now), other),
{
    let i = choose|i: int| 0 <= i < s.len() && s[i].connection_id == other;
    let r = after_register(s, connection_id, rpi_ms, now);
    if other == connection_id {
        lemma_registered_record(s, connection_id, rpi_ms, now);
    } else if has_id(s, connection_id) {
        assert(r[i] == s[i]);
    } else {
        assert(r[i] == s[i]);
    }
    assert(after_activity(s, connection_id, now)[i].connection_id == other);
    assert(after_transmit(s, now)[i].connection_id == other);
}

/// A cleanup removes exactly the assemblies of the connections it reports:
/// in a well-formed table, a connection not reported keeps its assembly.
pub proof fn lemma_cleanup_keeps_unreported(
    s: Seq<AssemblyRecord>,
    now: u64,
    timeout_ms: u64,
    other: u32,
)
    requires
        ids_unique(s),
        has_id(s, other),
        !expired_ids(s, now, timeout_ms).contains(other),
    ensures
        has_id(live_records(s, now, timeout_ms), other),
{
    let i = choose|i: int| 0 <= i < s.len() && s[i].connection_id == other;
    lemma_filter_has_id(s, alive_pred(now, timeout_ms), other);
    lemma_filter_has_id(s, expired_pred(now, timeout_ms), other);
    if !alive_pred(now, timeout_ms)(s[i]) {
        assert(expired_pred(now, timeout_ms)(s[i]));
        let e = s.filter(expired_pred(now, timeout_ms));
        let k = choose|k: int| 0 <= k < e.len() && e[k].connection_id == other;
        assert(expired_ids(s, now, timeout_ms)[k] == other);
        assert(false);
    }
}

/// Transmissions of a connection are at least one interval apart: a record
/// sent at `sent_at` with a positive interval is not due again at any `later`
/// before `sent_at` plus its interval.
pub proof fn lemma_transmit_spacing(s: Seq<AssemblyRecord>, i: int, sent_at: u64, later: u64)
    requires
        ids_unique(s),
        can_reschedule(s, sent_at),
        0 <= i < s.len(),
        is_ready(s[i], sent_at),
        s[i].rpi_ms > 0,
        sent_at <= later < sent_at + s[i].rpi_ms,
    ensures
        !has_id(ready_records(after_transmit(s, sent_at), later), s[i].connection_id),
{
    let t = after_transmit(s, sent_at);
    let c = s[i].connection_id;
    lemma_filter_has_id(t, ready_pred(later), c);
    assert forall|j: int| 0 <= j < t.len() && t[j].connection_id == c implies !#[trigger] ready_pred(
        later,
    )(t[j]) by {
        if j != i {
            assert(t[j].connection_id == s[j].connection_id);
        }
        assert(t[i] == rescheduled(s[i], sent_at));
    }
}

/// With every interval positive, a second transmission at the same instant
/// sends nothing.
pub proof fn lemma_second_tick_sends_nothing(s: Seq<AssemblyRecord>, now: u64)
    requires
        can_reschedule(s, now),
        forall|i: int| 0 <= i < s.len() ==> #[trigger] s[i].rpi_ms > 0,
    ensures
        ready_records(after_transmit(s, now), now) == Seq::<AssemblyRecord>::empty(),
{
    let t = after_transmit(s, now);
    assert forall|j: int| 0 <= j < t.len() implies !#[trigger] ready_pred(now)(t[j]) by {
        assert(s[j].rpi_ms > 0);
    }
    lemma_filter_none(t, ready_pred(now));
}

/// The last registration wins: registering a connection twice leaves the
/// table as registering it only the second time would.
pub proof fn lemma_register_twice(
    s: Seq<AssemblyRecord>,
    connection_id: u32,
    first_rpi_ms: u32,
    first_at: u64,
    rpi_ms: u32,
    now: u64,
)
    ensures
        after_register(after_register(s, connection_id, first_rpi_ms, first_at), connection_id, rpi_ms, now)
            == after_register(s, connection_id, rpi_ms, now),
{
    let s1 = after_register(s, connection_id, first_rpi_ms, first_at);
    lemma_registered_record(s, connection_id, first_rpi_ms, first_at);
    let lhs = after_register(s1, connection_id, rpi_ms, now);
    let rhs = after_register(s, connection_id, rpi_ms, now);
    if has_id(s, connection_id) {
        assert(lhs =~= rhs);
    } else {
        assert forall|j: int| 0 <= j < lhs.len() implies lhs[j] == rhs[j] by {
            if j < s.len() {
                assert(s1[j] == s[j]);
                assert(s[j].connection_id != connection_id);
            }
        }
        assert(lhs =~= rhs);
    }
}

} // verus!

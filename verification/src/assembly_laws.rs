//! Laws of the assembly table over runs of operations: how long a
//! connection's schedule and last activity last, and how successive or
//! differently timed cleanups relate.
use vstd::prelude::*;

use crate::assembly::{
    after_activity, after_register, after_transmit, alive_pred, can_reschedule, elapsed_ms,
    expired_ids, expired_pred, has_id, ids_unique, is_alive, is_ready, lemma_filter_has_id,
    lemma_registered_record, live_records, ready_pred, ready_records, rescheduled, AssemblyRecord,
};

verus! {

broadcast use vstd::seq_lib::group_filter_ensures;

/// Every record of `connection_id` in `s` is next due at `at`.
pub open spec fn due_at(s: Seq<AssemblyRecord>, connection_id: u32, at: u64) -> bool {
    forall|i: int|
        0 <= i < s.len() && #[trigger] s[i].connection_id == connection_id ==> s[i].next_send_time
            == at
}

/// Every record of `connection_id` in `s` was last heard from at `at`.
pub open spec fn heard_at(s: Seq<AssemblyRecord>, connection_id: u32, at: u64) -> bool {
    forall|i: int|
        0 <= i < s.len() && #[trigger] s[i].connection_id == connection_id ==> s[i].last_activity
            == at
}

/// No record of `s` was heard from later than `now`.
pub open spec fn heard_by(s: Seq<AssemblyRecord>, now: u64) -> bool {
    forall|i: int| 0 <= i < s.len() ==> #[trigger] s[i].last_activity <= now
}

/// The live records at `now` are the records of `s` that are alive at `now`.
pub proof fn lemma_live_contains(s: Seq<AssemblyRecord>, now: u64, timeout_ms: u64, r: AssemblyRecord)
    ensures
        live_records(s, now, timeout_ms).contains(r) <==> s.contains(r) && is_alive(
            r,
            now,
            timeout_ms,
        ),
{
    let l = live_records(s, now, timeout_ms);
    if l.contains(r) {
        s.lemma_filter_contains_rev(alive_pred(now, timeout_ms), r);
        let k = choose|k: int| 0 <= k < l.len() && l[k] == r;
        assert(alive_pred(now, timeout_ms)(l[k]));
    }
    if s.contains(r) && is_alive(r, now, timeout_ms) {
        let j = choose|j: int| 0 <= j < s.len() && s[j] == r;
        s.lemma_filter_contains(alive_pred(now, timeout_ms), j);
    }
}

/// A connection is among the timed-out ids exactly when one of its records
/// in `s` is not alive.
pub proof fn lemma_expired_contains(s: Seq<AssemblyRecord>, now: u64, timeout_ms: u64, id: u32)
    ensures
        expired_ids(s, now, timeout_ms).contains(id) <==> exists|j: int|
            0 <= j < s.len() && s[j].connection_id == id && !#[trigger] is_alive(
                s[j],
                now,
                timeout_ms,
            ),
{
    let e = s.filter(expired_pred(now, timeout_ms));
    let ids = expired_ids(s, now, timeout_ms);
    lemma_filter_has_id(s, expired_pred(now, timeout_ms), id);
    if ids.contains(id) {
        let k = choose|k: int| 0 <= k < ids.len() && ids[k] == id;
        assert(e[k].connection_id == id);
        let j = choose|j: int|
            0 <= j < s.len() && s[j].connection_id == id && #[trigger] expired_pred(
                now,
                timeout_ms,
            )(s[j]);
        assert(!is_alive(s[j], now, timeout_ms));
    }
    if exists|j: int|
        0 <= j < s.len() && s[j].connection_id == id && !#[trigger] is_alive(s[j], now, timeout_ms) {
        let j = choose|j: int|
            0 <= j < s.len() && s[j].connection_id == id && !#[trigger] is_alive(
                s[j],
                now,
                timeout_ms,
            );
        assert(expired_pred(now, timeout_ms)(s[j]));
        let k = choose|k: int| 0 <= k < e.len() && e[k].connection_id == id;
        assert(ids[k] == id);
    }
}

/// A connection's schedule lasts until it is due: activity on any
/// connection, registration of another connection, a cleanup, and a
/// transmission before the due time all leave it due at the same time.
pub proof fn lemma_schedule_kept(
    s: Seq<AssemblyRecord>,
    connection_id: u32,
    at: u64,
    other: u32,
    rpi_ms: u32,
    now: u64,
    timeout_ms: u64,
)
    requires
        due_at(s, connection_id, at),
    ensures
        due_at(after_activity(s, other, now), connection_id, at),
        other != connection_id ==> due_at(after_register(s, other, rpi_ms, now), connection_id, at),
        now < at ==> due_at(after_transmit(s, now), connection_id, at),
        due_at(live_records(s, now, timeout_ms), connection_id, at),
{
    let a = after_activity(s, other, now);
    assert forall|i: int| 0 <= i < a.len() && #[trigger] a[i].connection_id == connection_id implies a[i].next_send_time
        == at by {
        assert(s[i].connection_id == connection_id);
    }
    if other != connection_id {
        let g = after_register(s, other, rpi_ms, now);
        assert forall|i: int| 0 <= i < g.len() && #[trigger] g[i].connection_id == connection_id implies g[i].next_send_time
            == at by {
            if i < s.len() {
                assert(g[i] == s[i]);
            }
        }
    }
    if now < at {
        let t = after_transmit(s, now);
        assert forall|i: int| 0 <= i < t.len() && #[trigger] t[i].connection_id == connection_id implies t[i].next_send_time
            == at by {
            assert(s[i].connection_id == connection_id);
            assert(!is_ready(s[i], now));
        }
    }
    let l = live_records(s, now, timeout_ms);
    assert forall|i: int| 0 <= i < l.len() && #[trigger] l[i].connection_id == connection_id implies l[i].next_send_time
        == at by {
        assert(l.contains(l[i]));
        lemma_live_contains(s, now, timeout_ms, l[i]);
        let j = choose|j: int| 0 <= j < s.len() && s[j] == l[i];
    }
}

/// A transmission sets the schedule of what it sends: in a well-formed table,
/// a connection due at `sent_at` is next due one interval later.
pub proof fn lemma_transmit_schedules(s: Seq<AssemblyRecord>, i: int, sent_at: u64)
    requires
        ids_unique(s),
        can_reschedule(s, sent_at),
        0 <= i < s.len(),
        is_ready(s[i], sent_at),
    ensures
        due_at(after_transmit(s, sent_at), s[i].connection_id, (sent_at + s[i].rpi_ms) as u64),
{
    let t = after_transmit(s, sent_at);
    assert forall|j: int| 0 <= j < t.len() && #[trigger] t[j].connection_id == s[i].connection_id implies t[j].next_send_time
        == (sent_at + s[i].rpi_ms) as u64 by {
        assert(s[j].connection_id == s[i].connection_id);
        assert(j == i);
        assert(t[i] == rescheduled(s[i], sent_at));
    }
}

/// A connection is not due before its schedule: once every record of a
/// connection is due at `at`, no transmission earlier than `at` sends it.
/// With [`lemma_transmit_schedules`] and [`lemma_schedule_kept`], two
/// transmissions of a connection are at least one interval apart whatever
/// activity, other registrations and cleanups come between.
pub proof fn lemma_not_due_before(s: Seq<AssemblyRecord>, connection_id: u32, at: u64, now: u64)
    requires
        due_at(s, connection_id, at),
        now < at,
    ensures
        !has_id(ready_records(s, now), connection_id),
{
    lemma_filter_has_id(s, ready_pred(now), connection_id);
    assert forall|j: int| 0 <= j < s.len() && s[j].connection_id == connection_id implies !#[trigger] ready_pred(
        now,
    )(s[j]) by {}
}

/// A connection's last activity lasts until it is heard from or registered
/// again: registration of another connection, activity on another
/// connection, transmissions and cleanups keep it. Registering a connection
/// sets it to the registration time.
pub proof fn lemma_last_activity_kept(
    s: Seq<AssemblyRecord>,
    connection_id: u32,
    at: u64,
    other: u32,
    rpi_ms: u32,
    now: u64,
    timeout_ms: u64,
)
    ensures
        heard_at(after_register(s, connection_id, rpi_ms, now), connection_id, now),
        heard_at(s, connection_id, at) && other != connection_id ==> heard_at(
            after_register(s, other, rpi_ms, now),
            connection_id,
            at,
        ),
        heard_at(s, connection_id, at) && other != connection_id ==> heard_at(
            after_activity(s, other, now),
            connection_id,
            at,
        ),
        heard_at(s, connection_id, at) ==> heard_at(after_transmit(s, now), connection_id, at),
        heard_at(s, connection_id, at) ==> heard_at(
            live_records(s, now, timeout_ms),
            connection_id,
            at,
        ),
{
    lemma_registered_record(s, connection_id, rpi_ms, now);
    if heard_at(s, connection_id, at) {
        if other != connection_id {
            let g = after_register(s, other, rpi_ms, now);
            assert forall|i: int| 0 <= i < g.len() && #[trigger] g[i].connection_id == connection_id implies g[i].last_activity
                == at by {
                if i < s.len() {
                    assert(g[i] == s[i]);
                }
            }
            let a = after_activity(s, other, now);
            assert forall|i: int| 0 <= i < a.len() && #[trigger] a[i].connection_id == connection_id implies a[i].last_activity
                == at by {
                assert(s[i].connection_id == connection_id);
            }
        }
        let t = after_transmit(s, now);
        assert forall|i: int| 0 <= i < t.len() && #[trigger] t[i].connection_id == connection_id implies t[i].last_activity
            == at by {
            assert(s[i].connection_id == connection_id);
        }
        let l = live_records(s, now, timeout_ms);
        assert forall|i: int| 0 <= i < l.len() && #[trigger] l[i].connection_id == connection_id implies l[i].last_activity
            == at by {
            assert(l.contains(l[i]));
            lemma_live_contains(s, now, timeout_ms, l[i]);
            let j = choose|j: int| 0 <= j < s.len() && s[j] == l[i];
        }
    }
}

/// A connection times out by its last activity: when it was last heard from
/// at `at`, a cleanup at `now` reports it exactly when `timeout_ms` have
/// passed since `at`.
pub proof fn lemma_times_out_by_last_activity(
    s: Seq<AssemblyRecord>,
    connection_id: u32,
    at: u64,
    now: u64,
    timeout_ms: u64,
)
    requires
        has_id(s, connection_id),
        heard_at(s, connection_id, at),
    ensures
        expired_ids(s, now, timeout_ms).contains(connection_id) <==> elapsed_ms(now, at)
            >= timeout_ms,
{
    lemma_expired_contains(s, now, timeout_ms, connection_id);
    let i = choose|i: int| 0 <= i < s.len() && s[i].connection_id == connection_id;
    assert(s[i].last_activity == at);
    if exists|j: int|
        0 <= j < s.len() && s[j].connection_id == connection_id && !#[trigger] is_alive(
            s[j],
            now,
            timeout_ms,
        ) {
        let j = choose|j: int|
            0 <= j < s.len() && s[j].connection_id == connection_id && !#[trigger] is_alive(
                s[j],
                now,
                timeout_ms,
            );
        assert(s[j].last_activity == at);
    } else {
        assert(is_alive(s[i], now, timeout_ms));
    }
}

/// On a clock that does not go back, no assembly is heard from in the
/// future: registration and activity at `now` no earlier than every recorded
/// activity leave every activity at or before `now`, and transmissions and
/// cleanups change no activity.
pub proof fn lemma_activity_not_in_future(
    s: Seq<AssemblyRecord>,
    before: u64,
    connection_id: u32,
    rpi_ms: u32,
    now: u64,
    timeout_ms: u64,
)
    requires
        heard_by(s, before),
        before <= now,
    ensures
        heard_by(after_register(s, connection_id, rpi_ms, now), now),
        heard_by(after_activity(s, connection_id, now), now),
        heard_by(after_transmit(s, now), now),
        heard_by(live_records(s, now, timeout_ms), now),
{
    let g = after_register(s, connection_id, rpi_ms, now);
    assert forall|i: int| 0 <= i < g.len() implies #[trigger] g[i].last_activity <= now by {
        if i < s.len() {
            assert(s[i].last_activity <= before);
        }
    }
    let a = after_activity(s, connection_id, now);
    assert forall|i: int| 0 <= i < a.len() implies #[trigger] a[i].last_activity <= now by {
        assert(s[i].last_activity <= before);
    }
    let t = after_transmit(s, now);
    assert forall|i: int| 0 <= i < t.len() implies #[trigger] t[i].last_activity <= now by {
        assert(s[i].last_activity <= before);
    }
    let l = live_records(s, now, timeout_ms);
    assert forall|i: int| 0 <= i < l.len() implies #[trigger] l[i].last_activity <= now by {
        assert(l.contains(l[i]));
        lemma_live_contains(s, now, timeout_ms, l[i]);
        let j = choose|j: int| 0 <= j < s.len() && s[j] == l[i];
        assert(s[j].last_activity <= before);
    }
}

/// Successive cleanups report different connections: a connection reported
/// by one cleanup is not reported by the next, whatever times and timeouts
/// the two use.
pub proof fn lemma_successive_cleanups_disjoint(
    s: Seq<AssemblyRecord>,
    first_at: u64,
    first_timeout_ms: u64,
    now: u64,
    timeout_ms: u64,
    id: u32,
)
    requires
        ids_unique(s),
        expired_ids(s, first_at, first_timeout_ms).contains(id),
    ensures
        !expired_ids(live_records(s, first_at, first_timeout_ms), now, timeout_ms).contains(id),
{
    let l = live_records(s, first_at, first_timeout_ms);
    lemma_expired_contains(s, first_at, first_timeout_ms, id);
    lemma_expired_contains(l, now, timeout_ms, id);
    let j = choose|j: int|
        0 <= j < s.len() && s[j].connection_id == id && !#[trigger] is_alive(
            s[j],
            first_at,
            first_timeout_ms,
        );
    if expired_ids(l, now, timeout_ms).contains(id) {
        let k = choose|k: int|
            0 <= k < l.len() && l[k].connection_id == id && !#[trigger] is_alive(
                l[k],
                now,
                timeout_ms,
            );
        assert(l.contains(l[k]));
        lemma_live_contains(s, first_at, first_timeout_ms, l[k]);
        let m = choose|m: int| 0 <= m < s.len() && s[m] == l[k];
        assert(m == j);
        assert(false);
    }
}

/// A longer timeout removes less: with the same table and time, every
/// connection a cleanup with the longer timeout reports is reported by the
/// one with the shorter timeout, and every record the shorter one keeps the
/// longer one keeps too.
pub proof fn lemma_cleanup_monotone_in_timeout(
    s: Seq<AssemblyRecord>,
    now: u64,
    short_ms: u64,
    long_ms: u64,
)
    requires
        short_ms <= long_ms,
    ensures
        forall|id: u32|
            #[trigger] expired_ids(s, now, long_ms).contains(id) ==> expired_ids(
                s,
                now,
                short_ms,
            ).contains(id),
        forall|r: AssemblyRecord|
            #[trigger] live_records(s, now, short_ms).contains(r) ==> live_records(
                s,
                now,
                long_ms,
            ).contains(r),
{
    assert forall|id: u32| #[trigger] expired_ids(s, now, long_ms).contains(id) implies expired_ids(
        s,
        now,
        short_ms,
    ).contains(id) by {
        lemma_expired_contains(s, now, long_ms, id);
        lemma_expired_contains(s, now, short_ms, id);
        let j = choose|j: int|
            0 <= j < s.len() && s[j].connection_id == id && !#[trigger] is_alive(s[j], now, long_ms);
        assert(!is_alive(s[j], now, short_ms));
    }
    assert forall|r: AssemblyRecord| #[trigger] live_records(s, now, short_ms).contains(
        r,
    ) implies live_records(s, now, long_ms).contains(r) by {
        lemma_live_contains(s, now, short_ms, r);
        lemma_live_contains(s, now, long_ms, r);
    }
}

/// Registering `connection_id` at `now` leaves exactly one record of it:
/// four zero bytes of data, the given interval, due `rpi_ms` after `now`,
/// last heard from at `now`. Records of other connections are those before.
pub proof fn lemma_register_plain(s: Seq<AssemblyRecord>, connection_id: u32, rpi_ms: u32, now: u64)
    requires
        now + rpi_ms <= u64::MAX,
    ensures
        exists|i: int|
            0 <= i < after_register(s, connection_id, rpi_ms, now).len() && (#[trigger] after_register(
                s,
                connection_id,
                rpi_ms,
                now,
            )[i]).connection_id == connection_id,
        forall|i: int|
            0 <= i < after_register(s, connection_id, rpi_ms, now).len() && (#[trigger] after_register(
                s,
                connection_id,
                rpi_ms,
                now,
            )[i]).connection_id == connection_id ==> {
                let r = after_register(s, connection_id, rpi_ms, now)[i];
                &&& r.data == seq![0u8, 0u8, 0u8, 0u8]
                &&& r.rpi_ms == rpi_ms
                &&& r.next_send_time == now + rpi_ms
                &&& r.last_activity == now
            },
        forall|r: AssemblyRecord|
            r.connection_id != connection_id ==> (#[trigger] after_register(
                s,
                connection_id,
                rpi_ms,
                now,
            ).contains(r) <==> s.contains(r)),
{
    let t = after_register(s, connection_id, rpi_ms, now);
    lemma_registered_record(s, connection_id, rpi_ms, now);
    let k = choose|k: int| 0 <= k < t.len() && t[k].connection_id == connection_id;
    assert(t[k].connection_id == connection_id);
    assert forall|r: AssemblyRecord| r.connection_id != connection_id implies (#[trigger] t.contains(
        r,
    ) <==> s.contains(r)) by {
        if t.contains(r) {
            let j = choose|j: int| 0 <= j < t.len() && t[j] == r;
            if j < s.len() {
                assert(s[j] == t[j]);
            }
        }
        if s.contains(r) {
            let j = choose|j: int| 0 <= j < s.len() && s[j] == r;
            assert(t[j] == s[j]);
        }
    }
}

/// Activity on `connection_id` at `now` sets the last activity of its records
/// to `now` and changes nothing else.
pub proof fn lemma_activity_plain(s: Seq<AssemblyRecord>, connection_id: u32, now: u64)
    ensures
        after_activity(s, connection_id, now).len() == s.len(),
        forall|i: int|
            0 <= i < s.len() ==> {
                let r = #[trigger] after_activity(s, connection_id, now)[i];
                &&& r.last_activity == (if s[i].connection_id == connection_id {
                    now
                } else {
                    s[i].last_activity
                })
                &&& r.connection_id == s[i].connection_id
                &&& r.data == s[i].data
                &&& r.rpi_ms == s[i].rpi_ms
                &&& r.next_send_time == s[i].next_send_time
            },
{
}

/// A transmission at `now` sends exactly the records with `now` at or past
/// their due time, and moves each of them to `now` plus its interval; nothing
/// else changes.
pub proof fn lemma_transmit_plain(s: Seq<AssemblyRecord>, now: u64)
    requires
        can_reschedule(s, now),
    ensures
        forall|r: AssemblyRecord|
            #[trigger] ready_records(s, now).contains(r) <==> s.contains(r) && now
                >= r.next_send_time,
        after_transmit(s, now).len() == s.len(),
        forall|i: int|
            0 <= i < s.len() ==> {
                let r = #[trigger] after_transmit(s, now)[i];
                &&& r.next_send_time == (if now >= s[i].next_send_time {
                    now + s[i].rpi_ms
                } else {
                    s[i].next_send_time as int
                })
                &&& r.connection_id == s[i].connection_id
                &&& r.data == s[i].data
                &&& r.rpi_ms == s[i].rpi_ms
                &&& r.last_activity == s[i].last_activity
            },
{
    assert forall|r: AssemblyRecord| #[trigger] ready_records(s, now).contains(r) <==> s.contains(r)
        && now >= r.next_send_time by {
        let f = ready_records(s, now);
        if f.contains(r) {
            s.lemma_filter_contains_rev(ready_pred(now), r);
            let k = choose|k: int| 0 <= k < f.len() && f[k] == r;
            assert(ready_pred(now)(f[k]));
        }
        if s.contains(r) && now >= r.next_send_time {
            let j = choose|j: int| 0 <= j < s.len() && s[j] == r;
            s.lemma_filter_contains(ready_pred(now), j);
        }
    }
    assert forall|i: int| 0 <= i < s.len() implies {
        let r = #[trigger] after_transmit(s, now)[i];
        &&& r.next_send_time == (if now >= s[i].next_send_time {
            now + s[i].rpi_ms
        } else {
            s[i].next_send_time as int
        })
        &&& r.connection_id == s[i].connection_id
        &&& r.data == s[i].data
        &&& r.rpi_ms == s[i].rpi_ms
        &&& r.last_activity == s[i].last_activity
    } by {
        if is_ready(s[i], now) {
            assert(now + s[i].rpi_ms <= u64::MAX);
        }
    }
}

/// A cleanup with `timeout_ms` at `now` reports a connection exactly when
/// one of its records was last heard from `timeout_ms` or more before `now`
/// (a record heard from after `now` counts as heard from at `now`), and keeps
/// exactly the other records.
pub proof fn lemma_timeout_plain(s: Seq<AssemblyRecord>, now: u64, timeout_ms: u64)
    ensures
        forall|id: u32|
            #[trigger] expired_ids(s, now, timeout_ms).contains(id) <==> exists|j: int|
                0 <= j < s.len() && #[trigger] s[j].connection_id == id && (if now
                    >= s[j].last_activity {
                    now - s[j].last_activity >= timeout_ms
                } else {
                    timeout_ms == 0
                }),
        forall|r: AssemblyRecord|
            #[trigger] live_records(s, now, timeout_ms).contains(r) <==> s.contains(r) && (if now
                >= r.last_activity {
                now - r.last_activity < timeout_ms
            } else {
                0 < timeout_ms
            }),
{
    assert forall|id: u32| #[trigger] expired_ids(s, now, timeout_ms).contains(id) <==> exists|j: int|
        0 <= j < s.len() && #[trigger] s[j].connection_id == id && (if now >= s[j].last_activity {
            now - s[j].last_activity >= timeout_ms
        } else {
            timeout_ms == 0
        }) by {
        lemma_expired_contains(s, now, timeout_ms, id);
        if expired_ids(s, now, timeout_ms).contains(id) {
            let j = choose|j: int|
                0 <= j < s.len() && s[j].connection_id == id && !#[trigger] is_alive(
                    s[j],
                    now,
                    timeout_ms,
                );
            assert(s[j].connection_id == id);
        }
        if exists|j: int|
            0 <= j < s.len() && #[trigger] s[j].connection_id == id && (if now
                >= s[j].last_activity {
                now - s[j].last_activity >= timeout_ms
            } else {
                timeout_ms == 0
            }) {
            let j = choose|j: int|
                0 <= j < s.len() && #[trigger] s[j].connection_id == id && (if now
                    >= s[j].last_activity {
                    now - s[j].last_activity >= timeout_ms
                } else {
                    timeout_ms == 0
                });
            assert(!is_alive(s[j], now, timeout_ms));
        }
    }
    assert forall|r: AssemblyRecord| #[trigger] live_records(s, now, timeout_ms).contains(r) <==> s.contains(r)
        && (if now >= r.last_activity {
        now - r.last_activity < timeout_ms
    } else {
        0 < timeout_ms
    }) by {
        lemma_live_contains(s, now, timeout_ms, r);
    }
}

} // verus!

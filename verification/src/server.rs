//! The decisions of the UDP adapter: what an incoming packet does to the
//! connection and assembly tables and what is answered, which connections
//! time out, and which cyclic frames are multicast.
//!
//! The caller owns the socket and the clock: it hands in each received packet
//! with its sender's address and the current time in milliseconds, and sends
//! what comes back.
use vstd::prelude::*;

use std::collections::HashMap;

use crate::assembly::{
    after_register, after_transmit, can_reschedule, expired_ids, has_id,
    lemma_cleanup_keeps_unreported, lemma_registered_record, lemma_updates_keep_ids, live_records,
    ready_records, records, AssemblyManager, AssemblyObject, AssemblyRecord,
};
use crate::forward_close::{forward_close_from_bytes, ForwardCloseRequest, FORWARD_CLOSE_LEN};
use crate::forward_open::{forward_open_from_bytes, ForwardOpenRequest, FORWARD_OPEN_MIN_LEN};
use crate::wire::{
    lemma_le_u16_roundtrip, lemma_le_u32_roundtrip, bytes_mut_from_slice, le_u16_bytes, le_u32_at, le_u32_bytes, vec_put_u16_le, vec_put_u32_le,
    vec_put_u8,
};

verus! {

broadcast use vstd::std_specs::hash::group_hash_axioms;

/// A connection not heard from for this many milliseconds is dropped.
pub const CONNECTION_TIMEOUT_MS: u64 = 5000;

/// The status byte that opens a Forward Open response.
pub const FORWARD_OPEN_SUCCESS: u8 = 0xD4;

/// The UDP port that cyclic frames are multicast to.
pub const MULTICAST_PORT: u16 = 2222;

/// How often, in milliseconds, due assemblies are looked for.
pub const CYCLIC_POLL_MS: u64 = 5;

/// How often, in milliseconds, connections are checked for timeouts.
pub const TIMEOUT_POLL_MS: u64 = 1000;

/// The assembly instances and sizes that a Forward Open response announces.
#[derive(Debug, Clone, Copy, PartialEq, Eq, Structural)]
pub struct ServerConfig {
    pub input_instance: u16,
    pub output_instance: u16,
    pub config_instance: u16,
    pub input_size: u16,
    pub output_size: u16,
    pub config_size: u16,
}

/// The bytes of a Forward Open response: the success byte, then the three
/// instances and the three sizes, each as a little-endian 16-bit integer.
pub open spec fn forward_open_response_bytes(c: ServerConfig) -> Seq<u8> {
    seq![FORWARD_OPEN_SUCCESS] + le_u16_bytes(c.input_instance) + le_u16_bytes(c.output_instance)
        + le_u16_bytes(c.config_instance) + le_u16_bytes(c.input_size) + le_u16_bytes(
        c.output_size,
    ) + le_u16_bytes(c.config_size)
}

/// The layout of a Forward Open response: the success byte 0xD4, then input
/// instance, output instance, configuration instance, input size, output size
/// and configuration size, each in two bytes, least significant first.
pub proof fn lemma_forward_open_response_layout(c: ServerConfig)
    ensures
        ({
            let r = forward_open_response_bytes(c);
            &&& r.len() == 13
            &&& r[0] == 0xD4u8
            &&& r[1] + 256 * r[2] == c.input_instance
            &&& r[3] + 256 * r[4] == c.output_instance
            &&& r[5] + 256 * r[6] == c.config_instance
            &&& r[7] + 256 * r[8] == c.input_size
            &&& r[9] + 256 * r[10] == c.output_size
            &&& r[11] + 256 * r[12] == c.config_size
        }),
{
    lemma_le_u16_roundtrip(c.input_instance);
    lemma_le_u16_roundtrip(c.output_instance);
    lemma_le_u16_roundtrip(c.config_instance);
    lemma_le_u16_roundtrip(c.input_size);
    lemma_le_u16_roundtrip(c.output_size);
    lemma_le_u16_roundtrip(c.config_size);
    let r = forward_open_response_bytes(c);
    assert(r[1] == le_u16_bytes(c.input_instance)[0] && r[2] == le_u16_bytes(c.input_instance)[1]);
    assert(r[3] == le_u16_bytes(c.output_instance)[0] && r[4] == le_u16_bytes(c.output_instance)[1]);
    assert(r[5] == le_u16_bytes(c.config_instance)[0] && r[6] == le_u16_bytes(c.config_instance)[1]);
    assert(r[7] == le_u16_bytes(c.input_size)[0] && r[8] == le_u16_bytes(c.input_size)[1]);
    assert(r[9] == le_u16_bytes(c.output_size)[0] && r[10] == le_u16_bytes(c.output_size)[1]);
    assert(r[11] == le_u16_bytes(c.config_size)[0] && r[12] == le_u16_bytes(c.config_size)[1]);
}

/// The layout of a cyclic frame: the connection id in four bytes, least
/// significant first, then the assembly's data unchanged.
pub proof fn lemma_cyclic_frame_layout(r: AssemblyRecord)
    ensures
        cyclic_frame_bytes(r).len() == 4 + r.data.len(),
        ({
            let f = cyclic_frame_bytes(r);
            f[0] + 256 * f[1] + 65536 * f[2] + 16777216 * f[3] == r.connection_id
        }),
        forall|k: int| 0 <= k < r.data.len() ==> #[trigger] cyclic_frame_bytes(r)[k + 4] == r.data[k],
{
    lemma_le_u32_roundtrip(r.connection_id);
}

/// The frame multicast for an assembly: its little-endian connection id, then its data.
pub open spec fn cyclic_frame_bytes(r: AssemblyRecord) -> Seq<u8> {
    le_u32_bytes(r.connection_id) + r.data
}

/// A packet of at least sixteen bytes is read as a Forward Open request.
pub open spec fn is_forward_open(packet: Seq<u8>) -> bool {
    packet.len() >= FORWARD_OPEN_MIN_LEN
}

/// A packet of eight to fifteen bytes is read as a Forward Close request.
pub open spec fn is_forward_close(packet: Seq<u8>) -> bool {
    FORWARD_CLOSE_LEN <= packet.len() < FORWARD_OPEN_MIN_LEN
}

/// Registering the assembly that `packet` opens at `now` stays within the clock's range.
pub open spec fn open_fits_clock(packet: Seq<u8>, now: u64) -> bool {
    is_forward_open(packet) ==> now + le_u32_at(packet, 9) <= u64::MAX
}

/// Every connection with a recorded address has an assembly.
pub open spec fn addresses_have_assemblies<A>(conns: Map<u32, A>, assemblies: Seq<AssemblyRecord>) -> bool {
    forall|id: u32| #[trigger] conns.contains_key(id) ==> has_id(assemblies, id)
}

/// The adapter's state: its configuration, the address of each open
/// connection, and the assemblies of the connections.
pub struct ServerState<A> {
    config: ServerConfig,
    active_connections: HashMap<u32, A>,
    assembly_manager: AssemblyManager,
}

impl<A> ServerState<A> {
    /// The adapter's configuration.
    pub closed spec fn configuration(&self) -> ServerConfig {
        self.config
    }

    /// The address of each open connection.
    pub closed spec fn connections(&self) -> Map<u32, A> {
        self.active_connections@
    }

    /// The assemblies, in table order.
    pub closed spec fn assemblies(&self) -> Seq<AssemblyRecord> {
        self.assembly_manager@
    }

    /// Every state is well formed: each connection with a recorded address
    /// has an assembly.
    #[verifier::type_invariant]
    pub open spec fn well_formed(self) -> bool {
        addresses_have_assemblies(self.connections(), self.assemblies())
    }

    /// A state with no connections and no assemblies.
    pub fn new(config: ServerConfig) -> (r: Self)
        ensures
            r.configuration() == config,
            r.connections() == Map::<u32, A>::empty(),
            r.assemblies() == Seq::<AssemblyRecord>::empty(),
    {
        ServerState {
            config,
            active_connections: HashMap::new(),
            assembly_manager: AssemblyManager::new(),
        }
    }

    /// The address recorded for `connection_id`, if the connection is open.
    pub fn connection(&self, connection_id: u32) -> (r: Option<&A>)
        ensures
            r matches Some(addr) ==> self.connections().contains_key(connection_id)
                && *addr == self.connections()[connection_id],
            r is None ==> !self.connections().contains_key(connection_id),
    {
        self.active_connections.get(&connection_id)
    }

    /// The Forward Open response of this adapter.
    pub fn create_forward_open_response(&self) -> (r: Vec<u8>)
        ensures
            r@ == forward_open_response_bytes(self.configuration()),
            r@.len() == 13,
            r@[0] == 0xD4u8,
            r@[1] + 256 * r@[2] == self.configuration().input_instance,
            r@[3] + 256 * r@[4] == self.configuration().output_instance,
            r@[5] + 256 * r@[6] == self.configuration().config_instance,
            r@[7] + 256 * r@[8] == self.configuration().input_size,
            r@[9] + 256 * r@[10] == self.configuration().output_size,
            r@[11] + 256 * r@[12] == self.configuration().config_size,
    {
        proof {
            lemma_forward_open_response_layout(self.config);
        }
        let mut response: Vec<u8> = Vec::new();
        vec_put_u8(&mut response, FORWARD_OPEN_SUCCESS);
        vec_put_u16_le(&mut response, self.config.input_instance);
        vec_put_u16_le(&mut response, self.config.output_instance);
        vec_put_u16_le(&mut response, self.config.config_instance);
        vec_put_u16_le(&mut response, self.config.input_size);
        vec_put_u16_le(&mut response, self.config.output_size);
        vec_put_u16_le(&mut response, self.config.config_size);
        assert(response@ =~= forward_open_response_bytes(self.config));
        response
    }

    /// Handles a packet received from `addr` at `now`.
    ///
    /// A Forward Open request records `addr` as the connection's address,
    /// registers the connection's assembly and is answered with the Forward
    /// Open response. A Forward Close request forgets the connection's address
    /// (its assembly stays until it times out) and is not answered. Shorter
    /// packets change nothing.
    pub fn process_packet(&mut self, data: &[u8], addr: A, now: u64) -> (reply: Option<Vec<u8>>)
        requires
            open_fits_clock(data@, now),
        ensures
            final(self).configuration() == old(self).configuration(),
            is_forward_open(data@) ==> {
                let req = forward_open_from_bytes(data@);
                &&& final(self).connections() == old(self).connections().insert(
                    req.connection_id,
                    addr,
                )
                &&& final(self).assemblies() == after_register(
                    old(self).assemblies(),
                    req.connection_id,
                    req.requested_packet_interval,
                    now,
                )
                &&& reply matches Some(bytes) && bytes@ == forward_open_response_bytes(
                    old(self).configuration(),
                )
            },
            is_forward_close(data@) ==> {
                &&& final(self).connections() == old(self).connections().remove(
                    forward_close_from_bytes(data@).connection_id,
                )
                &&& final(self).assemblies() == old(self).assemblies()
                &&& reply is None
            },
            !is_forward_open(data@) && !is_forward_close(data@) ==> {
                &&& final(self).connections() == old(self).connections()
                &&& final(self).assemblies() == old(self).assemblies()
                &&& reply is None
            },
    {
        proof {
            use_type_invariant(&*self);
        }
        let mut conns: HashMap<u32, A> = HashMap::new();
        std::mem::swap(&mut conns, &mut self.active_connections);
        let mut manager = AssemblyManager::new();
        std::mem::swap(&mut manager, &mut self.assembly_manager);
        let ghost old_conns = conns@;
        let ghost old_s = manager@;
        let mut reply: Option<Vec<u8>> = None;
        let mut buf = bytes_mut_from_slice(data);
        if let Some(forward_open) = ForwardOpenRequest::parse(&mut buf) {
            conns.insert(forward_open.connection_id, addr);
            manager.register(
                forward_open.connection_id,
                forward_open.requested_packet_interval,
                now,
            );
            proof {
                assert forall|id: u32| #[trigger] conns@.contains_key(id) implies has_id(
                    manager@,
                    id,
                ) by {
                    if id == forward_open.connection_id {
                        lemma_registered_record(
                            old_s,
                            forward_open.connection_id,
                            forward_open.requested_packet_interval,
                            now,
                        );
                    } else {
                        assert(old_conns.contains_key(id));
                        lemma_updates_keep_ids(
                            old_s,
                            forward_open.connection_id,
                            forward_open.requested_packet_interval,
                            now,
                            id,
                        );
                    }
                }
            }
            reply = Some(self.create_forward_open_response());
        } else if let Some(forward_close) = ForwardCloseRequest::parse(&mut buf) {
            conns.remove(&forward_close.connection_id);
        }
        self.assembly_manager = manager;
        self.active_connections = conns;
        reply
    }

    /// Drops every connection not heard from within [`CONNECTION_TIMEOUT_MS`]
    /// of `now`: its assembly and its address go. Returns the dropped
    /// connection ids in table order.
    pub fn check_connection_timeouts(&mut self, now: u64) -> (timed_out: Vec<u32>)
        requires
        ensures
            final(self).configuration() == old(self).configuration(),
            timed_out@ == expired_ids(old(self).assemblies(), now, CONNECTION_TIMEOUT_MS),
            timed_out@ == expired_ids(old(self).assemblies(), now, 5000),
            final(self).assemblies() == live_records(
                old(self).assemblies(),
                now,
                CONNECTION_TIMEOUT_MS,
            ),
            final(self).connections() == old(self).connections().remove_keys(
                timed_out@.to_set(),
            ),
    {
        proof {
            use_type_invariant(&*self);
        }
        let mut conns: HashMap<u32, A> = HashMap::new();
        std::mem::swap(&mut conns, &mut self.active_connections);
        let mut manager = AssemblyManager::new();
        std::mem::swap(&mut manager, &mut self.assembly_manager);
        proof {
            use_type_invariant(&manager);
        }
        let timed_out = manager.cleanup_timed_out_connections(
            CONNECTION_TIMEOUT_MS,
            now,
        );
        let ghost before = conns@;
        let n = timed_out.len();
        let mut i: usize = 0;
        while i < n
            invariant
                n == timed_out.len(),
                0 <= i <= n,
                conns@ == before.remove_keys(timed_out@.take(i as int).to_set()),
                self.config == old(self).config,
                self.active_connections@ == Map::<u32, A>::empty(),
                self.assembly_manager@ == Seq::<AssemblyRecord>::empty(),
                manager@ == live_records(
                    old(self).assembly_manager@,
                    now,
                    CONNECTION_TIMEOUT_MS,
                ),
                timed_out@ == expired_ids(old(self).assembly_manager@, now, CONNECTION_TIMEOUT_MS),
                before == old(self).active_connections@,
            decreases n - i,
        {
            let conn_id = timed_out[i];
            conns.remove(&conn_id);
            proof {
                assert(timed_out@.take(i + 1).to_set() =~= timed_out@.take(i as int).to_set().insert(
                    conn_id,
                )) by {
                    assert forall|x: u32| #[trigger]
                        timed_out@.take(i + 1).to_set().contains(x) <==> timed_out@.take(
                            i as int,
                        ).to_set().insert(conn_id).contains(x) by {
                        if timed_out@.take(i + 1).contains(x) {
                            let k = choose|k: int|
                                0 <= k < i + 1 && #[trigger] timed_out@.take(i + 1)[k] == x;
                            if k < i {
                                assert(timed_out@.take(i as int)[k] == x);
                            }
                        }
                        if timed_out@.take(i as int).contains(x) {
                            let k = choose|k: int| 0 <= k < i && #[trigger] timed_out@.take(i as int)[k] == x;
                            assert(timed_out@.take(i + 1)[k] == x);
                        }
                        if x == conn_id {
                            assert(timed_out@.take(i + 1)[i as int] == x);
                        }
                    }
                }
                assert(conns@ =~= before.remove_keys(
                    timed_out@.take(i + 1).to_set(),
                ));
            }
            i += 1;
        }
        assert(timed_out@.take(n as int) =~= timed_out@);
        proof {
            let old_s = old(self).assembly_manager@;
            assert forall|id: u32| #[trigger] conns@.contains_key(id) implies has_id(
                manager@,
                id,
            ) by {
                assert(old(self).active_connections@.contains_key(id));
                assert(!timed_out@.to_set().contains(id));
                lemma_cleanup_keeps_unreported(old_s, now, CONNECTION_TIMEOUT_MS, id);
            }
        }
        self.assembly_manager = manager;
        self.active_connections = conns;
        timed_out
    }

    /// Takes the assemblies due at `now`, schedules each one interval later,
    /// and returns the frame to multicast for each, in table order.
    pub fn start_cyclic_multicast(&mut self, now: u64) -> (frames: Vec<Vec<u8>>)
        requires
            can_reschedule(old(self).assemblies(), now),
        ensures
            final(self).configuration() == old(self).configuration(),
            final(self).connections() == old(self).connections(),
            final(self).assemblies() == after_transmit(old(self).assemblies(), now),
            frames@.len() == ready_records(old(self).assemblies(), now).len(),
            forall|i: int|
                0 <= i < frames@.len() ==> #[trigger] frames@[i]@ == cyclic_frame_bytes(
                    ready_records(old(self).assemblies(), now)[i],
                ),
    {
        proof {
            use_type_invariant(&*self);
        }
        let mut conns: HashMap<u32, A> = HashMap::new();
        std::mem::swap(&mut conns, &mut self.active_connections);
        let mut manager = AssemblyManager::new();
        std::mem::swap(&mut manager, &mut self.assembly_manager);
        let ready = manager.get_ready_transmissions(now);
        let mut frames: Vec<Vec<u8>> = Vec::new();
        let n = ready.len();
        let mut i: usize = 0;
        while i < n
            invariant
                n == ready.len(),
                0 <= i <= n,
                frames@.len() == i,
                self.config == old(self).config,
                self.active_connections@ == Map::<u32, A>::empty(),
                self.assembly_manager@ == Seq::<AssemblyRecord>::empty(),
                manager@ == after_transmit(old(self).assembly_manager@, now),
                conns@ == old(self).active_connections@,
                records(ready@) == ready_records(old(self).assembly_manager@, now),
                forall|j: int|
                    0 <= j < i ==> #[trigger] frames@[j]@ == cyclic_frame_bytes(ready@[j]@),
                forall|j: int| 0 <= j < n ==> ready@[j].data@.len() == 4,
            decreases n - i,
        {
            let frame = cyclic_frame(&ready[i]);
            frames.push(frame);
            i += 1;
        }
        proof {
            let old_s = old(self).assembly_manager@;
            assert forall|id: u32| #[trigger] conns@.contains_key(id) implies has_id(
                manager@,
                id,
            ) by {
                lemma_updates_keep_ids(old_s, 0, 0, now, id);
            }
            assert forall|j: int| 0 <= j < frames@.len() implies #[trigger] frames@[j]@
                == cyclic_frame_bytes(ready_records(old(self).assemblies(), now)[j]) by {
                assert(records(ready@)[j] == ready@[j]@);
            }
        }
        self.assembly_manager = manager;
        self.active_connections = conns;
        frames
    }
}

/// A Forward Close undoes the connection table's side of a Forward Open: after
/// a connection is opened from any address and then closed, the table holds
/// no address for it and is as the close alone would leave it.
pub proof fn lemma_close_after_open<A>(conns: Map<u32, A>, open: Seq<u8>, close: Seq<u8>, addr: A)
    requires
        is_forward_open(open),
        is_forward_close(close),
        forward_open_from_bytes(open).connection_id == forward_close_from_bytes(close).connection_id,
    ensures
        !conns.insert(forward_open_from_bytes(open).connection_id, addr).remove(
            forward_close_from_bytes(close).connection_id,
        ).contains_key(forward_close_from_bytes(close).connection_id),
        conns.insert(forward_open_from_bytes(open).connection_id, addr).remove(
            forward_close_from_bytes(close).connection_id,
        ) == conns.remove(forward_close_from_bytes(close).connection_id),
{
    let id = forward_open_from_bytes(open).connection_id;
    assert(conns.insert(id, addr).remove(id) =~= conns.remove(id));
}

/// A timed-out connection's address is forgotten, and every other address is
/// kept.
pub proof fn lemma_timed_out_forgotten<A>(conns: Map<u32, A>, timed_out: Seq<u32>)
    ensures
        forall|k: int|
            0 <= k < timed_out.len() ==> !conns.remove_keys(timed_out.to_set()).contains_key(
                #[trigger] timed_out[k],
            ),
        forall|id: u32|
            conns.contains_key(id) && !timed_out.contains(id) ==> #[trigger] conns.remove_keys(
                timed_out.to_set(),
            ).contains_key(id) && conns.remove_keys(timed_out.to_set())[id] == conns[id],
{
    assert forall|k: int| 0 <= k < timed_out.len() implies !conns.remove_keys(
        timed_out.to_set(),
    ).contains_key(#[trigger] timed_out[k]) by {
        assert(timed_out.contains(timed_out[k]));
    }
}

/// The frame multicast for `assembly`: its little-endian connection id, then its data.
pub fn cyclic_frame(assembly: &AssemblyObject) -> (frame: Vec<u8>)
    requires
        assembly.data@.len() + 4 <= isize::MAX,
    ensures
        frame@ == cyclic_frame_bytes(assembly@),
        frame@.len() == 4 + assembly.data@.len(),
        frame@[0] + 256 * frame@[1] + 65536 * frame@[2] + 16777216 * frame@[3]
            == assembly.connection_id,
        forall|k: int| 0 <= k < assembly.data@.len() ==> #[trigger] frame@[k + 4] == assembly.data@[k],
{
    proof {
        lemma_cyclic_frame_layout(assembly@);
    }
    let mut response: Vec<u8> = Vec::new();
    vec_put_u32_le(&mut response, assembly.connection_id);
    let n = assembly.data.len();
    let mut i: usize = 0;
    while i < n
        invariant
            n == assembly.data@.len(),
            0 <= i <= n,
            response@ == le_u32_bytes(assembly.connection_id) + assembly.data@.take(i as int),
        decreases n - i,
    {
        response.push(assembly.data[i]);
        assert(assembly.data@.take(i + 1) =~= assembly.data@.take(i as int).push(
            assembly.data@[i as int],
        ));
        i += 1;
    }
    assert(assembly.data@.take(n as int) =~= assembly.data@);
    response
}

} // verus!

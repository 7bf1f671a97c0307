//! The Balluff BNI008M I/O module: the explicit requests sent to its
//! assemblies, the packing of output states, the decoding of input states,
//! and the checks made before the implicit (cyclic) connection is used.
use vstd::prelude::*;

use crate::wire::{
    bytes_mut_put_u16_le, bytes_mut_to_vec, bytes_mut_view, bytes_mut_with_capacity, le_u16_at,
    le_u16_bytes, read_u16_le,
};

verus! {

/// The CIP service that reads one attribute.
pub const GET_ATTRIBUTE_SINGLE: u8 = 0x0E;

/// The CIP service that writes one attribute.
pub const SET_ATTRIBUTE_SINGLE: u8 = 0x10;

/// The assembly instance of the module's inputs.
pub const INPUT_ASSEMBLY: u8 = 100;

/// The assembly instance of the module's outputs.
pub const OUTPUT_ASSEMBLY: u8 = 101;

/// The assembly instance of the module's configuration.
pub const CONFIG_ASSEMBLY: u8 = 102;

/// The number of digital channels, inputs and outputs alike.
pub const CHANNELS: usize = 16;

/// How a port of the module is driven.
#[derive(Debug, Clone, Copy, PartialEq, Eq, Structural)]
pub enum PortMode {
    Digital,
    IoLink,
}

/// The byte that stands for a port mode on the wire.
pub open spec fn port_mode_code(mode: PortMode) -> u8 {
    match mode {
        PortMode::Digital => 0,
        PortMode::IoLink => 1,
    }
}

impl PortMode {
    /// The byte that stands for this mode on the wire: 0 for digital, 1 for IO-Link.
    pub fn code(self) -> (c: u8)
        ensures
            c == port_mode_code(self),
            self == PortMode::Digital ==> c == 0,
            self == PortMode::IoLink ==> c == 1,
    {
        match self {
            PortMode::Digital => 0,
            PortMode::IoLink => 1,
        }
    }
}

/// An explicit request: a CIP service, the path of the attribute it acts on,
/// and the request data.
#[derive(Debug)]
pub struct ExplicitRequest {
    pub service: u8,
    pub path: Vec<u8>,
    pub data: Vec<u8>,
}

/// The errors of the module's operations that this library decides.
#[derive(Debug, Clone, Copy, PartialEq, Eq, Structural)]
pub enum DeviceError {
    /// An input assembly read returned fewer than two bytes.
    InputDataTooShort,
    /// The implicit connection was used before it was started.
    ImplicitNotStarted,
}

impl DeviceError {
    /// The message that describes the error.
    pub fn message(&self) -> (m: &'static str)
        ensures
            *self == DeviceError::InputDataTooShort ==> m@ == "Input data too short"@,
            *self == DeviceError::ImplicitNotStarted ==> m@ == "Implicit connection not started"@,
    {
        match self {
            DeviceError::InputDataTooShort => "Input data too short",
            DeviceError::ImplicitNotStarted => "Implicit connection not started",
        }
    }
}

/// The path of attribute 3 of assembly `instance`: class 0x04, the instance,
/// attribute 0x03.
pub open spec fn assembly_path_bytes(instance: u8) -> Seq<u8> {
    seq![0x20u8, 0x04u8, 0x24u8, instance, 0x30u8, 0x03u8]
}

/// Whether bit `i` of `v` is set.
pub open spec fn bit_set(v: u16, i: u16) -> bool {
    v & (1u16 << i) != 0
}

/// The state of output channel `i`: the `i`-th given state, or off past the
/// end of `outputs`.
pub open spec fn output_bit(outputs: Seq<bool>, i: int) -> bool {
    i < outputs.len() && outputs[i]
}

/// `v` holds the states of the first sixteen `outputs`, channel `i` in bit `i`;
/// the bits of channels with no given state are clear.
pub open spec fn packs(v: u16, outputs: Seq<bool>) -> bool {
    forall|i: u16| i < CHANNELS ==> #[trigger] bit_set(v, i) == output_bit(outputs, i as int)
}

/// The input states that a 16-bit input word stands for, channel `i` from bit `i`.
pub open spec fn input_states(v: u16) -> Seq<bool> {
    Seq::new(CHANNELS as nat, |i: int| bit_set(v, i as u16))
}

/// No bit of zero is set.
proof fn lemma_no_bits_set(j: u16)
    requires
        j < 16,
    ensures
        !bit_set(0u16, j),
{
    assert(0u16 & (1u16 << j) == 0) by (bit_vector)
        requires
            j < 16,
    ;
}

/// Setting bit `i` sets that bit and leaves the others as they were.
proof fn lemma_set_bit(v: u16, i: u16, j: u16)
    requires
        i < 16,
        j < 16,
    ensures
        bit_set(v | (1u16 << i), j) == (bit_set(v, j) || i == j),
{
    assert((v | (1u16 << i)) & (1u16 << j) != 0 <==> (v & (1u16 << j) != 0 || i == j))
        by (bit_vector)
        requires
            i < 16,
            j < 16,
    ;
}

/// The path of attribute 3 of assembly `instance`.
pub fn assembly_path(instance: u8) -> (p: Vec<u8>)
    ensures
        p@ == assembly_path_bytes(instance),
{
    let p = vec![0x20u8, 0x04u8, 0x24u8, instance, 0x30u8, 0x03u8];
    assert(p@ =~= assembly_path_bytes(instance));
    p
}

/// The request that reads assembly `instance`: Get Attribute Single on its
/// data attribute, with no request data.
pub fn read_assembly_request(instance: u8) -> (r: ExplicitRequest)
    ensures
        r.service == GET_ATTRIBUTE_SINGLE,
        r.path@ == assembly_path_bytes(instance),
        r.data@ == Seq::<u8>::empty(),
        r.service == 0x0Eu8,
        r.path@ == seq![0x20u8, 0x04u8, 0x24u8, instance, 0x30u8, 0x03u8],
{
    ExplicitRequest { service: GET_ATTRIBUTE_SINGLE, path: assembly_path(instance), data: Vec::new() }
}

/// The output word for `outputs`: channel `i` on sets bit `i`. States past
/// the sixteenth are ignored.
pub fn pack_outputs(outputs: &[bool]) -> (v: u16)
    ensures
        packs(v, outputs@),
        forall|i: u16|
            i < 16 ==> (#[trigger] (v & (1u16 << i)) != 0) == ((i as int) < outputs@.len()
                && outputs@[i as int]),
{
    let n: usize = if outputs.len() < CHANNELS {
        outputs.len()
    } else {
        CHANNELS
    };
    let mut val: u16 = 0;
    proof {
        assert forall|j: u16| j < CHANNELS implies !#[trigger] bit_set(val, j) by {
            lemma_no_bits_set(j);
        }
    }
    let mut i: usize = 0;
    while i < n
        invariant
            n <= CHANNELS,
            n <= outputs@.len(),
            n == CHANNELS || n == outputs@.len(),
            0 <= i <= n,
            forall|j: u16|
                j < CHANNELS ==> #[trigger] bit_set(val, j) == (j < i && outputs@[j as int]),
        decreases n - i,
    {
        let shift: u16 = i as u16;
        if outputs[i] {
            let ghost prev = val;
            val = val | (1u16 << shift);
            proof {
                assert forall|j: u16| j < CHANNELS implies #[trigger] bit_set(val, j) == (j < i + 1
                    && outputs@[j as int]) by {
                    lemma_set_bit(prev, shift, j);
                }
            }
        }
        i += 1;
    }
    proof {
        assert forall|k: u16| k < 16 implies (#[trigger] (val & (1u16 << k)) != 0) == ((k as int)
            < outputs@.len() && outputs@[k as int]) by {
            assert(bit_set(val, k) == (k < i && outputs@[k as int]));
        }
    }
    val
}

/// The request that sets the outputs: Set Attribute Single on the output
/// assembly, with the output word as two little-endian bytes.
pub fn write_outputs_request(outputs: &[bool]) -> (r: ExplicitRequest)
    ensures
        r.service == SET_ATTRIBUTE_SINGLE,
        r.path@ == assembly_path_bytes(OUTPUT_ASSEMBLY),
        r.data@.len() == 2,
        packs(le_u16_at(r.data@, 0) as u16, outputs@),
        r.service == 0x10u8,
        r.path@ == seq![0x20u8, 0x04u8, 0x24u8, 101u8, 0x30u8, 0x03u8],
        forall|i: u16|
            i < 16 ==> (#[trigger] (((r.data@[0] + 256 * r.data@[1]) as u16) & (1u16 << i)) != 0)
                == ((i as int) < outputs@.len() && outputs@[i as int]),
{
    let val = pack_outputs(outputs);
    let mut data = bytes_mut_with_capacity(2);
    bytes_mut_put_u16_le(&mut data, val);
    let bytes = bytes_mut_to_vec(&data);
    proof {
        assert(bytes@ =~= le_u16_bytes(val));
        crate::wire::lemma_le_u16_roundtrip(val);
    }
    ExplicitRequest {
        service: SET_ATTRIBUTE_SINGLE,
        path: assembly_path(OUTPUT_ASSEMBLY),
        data: bytes,
    }
}

/// The request that sets the mode of `port`: Set Attribute Single on the
/// configuration assembly, with the port and the mode's byte as data.
pub fn configure_port_request(port: u8, mode: PortMode) -> (r: ExplicitRequest)
    ensures
        r.service == SET_ATTRIBUTE_SINGLE,
        r.path@ == assembly_path_bytes(CONFIG_ASSEMBLY),
        r.data@ == seq![port, port_mode_code(mode)],
        r.service == 0x10u8,
        r.path@ == seq![0x20u8, 0x04u8, 0x24u8, 102u8, 0x30u8, 0x03u8],
        r.data@ == seq![
            port,
            match mode {
                PortMode::Digital => 0u8,
                PortMode::IoLink => 1u8,
            },
        ],
{
    let data = vec![port, mode.code()];
    assert(data@ =~= seq![port, port_mode_code(mode)]);
    ExplicitRequest { service: SET_ATTRIBUTE_SINGLE, path: assembly_path(CONFIG_ASSEMBLY), data }
}

/// The input states in the data of an input assembly read: the first two
/// bytes form a little-endian word whose bit `i` is channel `i`. Data of
/// fewer than two bytes is an error; bytes past the second are ignored.
pub fn decode_inputs(response_data: &[u8]) -> (r: Result<Vec<bool>, DeviceError>)
    ensures
        r is Err <==> response_data@.len() < 2,
        r matches Err(e) ==> e == DeviceError::InputDataTooShort,
        r matches Ok(states) ==> states@ == input_states(le_u16_at(response_data@, 0) as u16),
        r matches Ok(states) ==> {
            &&& states@.len() == 16
            &&& forall|i: u16|
                i < 16 ==> states@[i as int] == (#[trigger] (((response_data@[0] + 256
                    * response_data@[1]) as u16) & (1u16 << i)) != 0)
        },
{
    if response_data.len() < 2 {
        return Err(DeviceError::InputDataTooShort);
    }
    let val = read_u16_le(response_data);
    let mut states: Vec<bool> = Vec::new();
    let mut i: u16 = 0;
    while i < 16
        invariant
            0 <= i <= 16,
            val == le_u16_at(response_data@, 0),
            states@ == input_states(val).take(i as int),
        decreases 16 - i,
    {
        states.push((val & (1u16 << i)) != 0);
        assert(states@ =~= input_states(val).take(i + 1));
        i += 1;
    }
    assert(states@ =~= input_states(val));
    Ok(states)
}

/// The check made before the implicit connection is read or written: it must
/// have been started.
pub fn check_implicit_started(started: bool) -> (r: Result<(), DeviceError>)
    ensures
        r is Ok <==> started,
        r matches Err(e) ==> e == DeviceError::ImplicitNotStarted,
{
    if started {
        Ok(())
    } else {
        Err(DeviceError::ImplicitNotStarted)
    }
}

/// Whether starting the implicit connection opens one: only when none is
/// open yet.
pub fn implicit_needs_open(started: bool) -> (r: bool)
    ensures
        r == !started,
{
    !started
}

/// A 16-bit word is determined by its sixteen bits.
pub proof fn lemma_bits_determine_word(v: u16, w: u16)
    requires
        forall|i: u16| i < 16 ==> #[trigger] bit_set(v, i) == bit_set(w, i),
    ensures
        v == w,
{
    assert(bit_set(v, 0) == bit_set(w, 0));
    assert(bit_set(v, 1) == bit_set(w, 1));
    assert(bit_set(v, 2) == bit_set(w, 2));
    assert(bit_set(v, 3) == bit_set(w, 3));
    assert(bit_set(v, 4) == bit_set(w, 4));
    assert(bit_set(v, 5) == bit_set(w, 5));
    assert(bit_set(v, 6) == bit_set(w, 6));
    assert(bit_set(v, 7) == bit_set(w, 7));
    assert(bit_set(v, 8) == bit_set(w, 8));
    assert(bit_set(v, 9) == bit_set(w, 9));
    assert(bit_set(v, 10) == bit_set(w, 10));
    assert(bit_set(v, 11) == bit_set(w, 11));
    assert(bit_set(v, 12) == bit_set(w, 12));
    assert(bit_set(v, 13) == bit_set(w, 13));
    assert(bit_set(v, 14) == bit_set(w, 14));
    assert(bit_set(v, 15) == bit_set(w, 15));
    assert(v == w) by (bit_vector)
        requires
            (v & (1u16 << 0u16) != 0) == (w & (1u16 << 0u16) != 0),
            (v & (1u16 << 1u16) != 0) == (w & (1u16 << 1u16) != 0),
            (v & (1u16 << 2u16) != 0) == (w & (1u16 << 2u16) != 0),
            (v & (1u16 << 3u16) != 0) == (w & (1u16 << 3u16) != 0),
            (v & (1u16 << 4u16) != 0) == (w & (1u16 << 4u16) != 0),
            (v & (1u16 << 5u16) != 0) == (w & (1u16 << 5u16) != 0),
            (v & (1u16 << 6u16) != 0) == (w & (1u16 << 6u16) != 0),
            (v & (1u16 << 7u16) != 0) == (w & (1u16 << 7u16) != 0),
            (v & (1u16 << 8u16) != 0) == (w & (1u16 << 8u16) != 0),
            (v & (1u16 << 9u16) != 0) == (w & (1u16 << 9u16) != 0),
            (v & (1u16 << 10u16) != 0) == (w & (1u16 << 10u16) != 0),
            (v & (1u16 << 11u16) != 0) == (w & (1u16 << 11u16) != 0),
            (v & (1u16 << 12u16) != 0) == (w & (1u16 << 12u16) != 0),
            (v & (1u16 << 13u16) != 0) == (w & (1u16 << 13u16) != 0),
            (v & (1u16 << 14u16) != 0) == (w & (1u16 << 14u16) != 0),
            (v & (1u16 << 15u16) != 0) == (w & (1u16 << 15u16) != 0),
    ;
}

/// Channel `k` alone lands in bit `k` alone: the output word for states in
/// which only channel `k` is on is `1 << k`.
pub proof fn lemma_single_channel_word(outputs: Seq<bool>, k: u16, v: u16)
    requires
        packs(v, outputs),
        k < 16,
        (k as int) < outputs.len(),
        outputs[k as int],
        forall|j: int| 0 <= j < outputs.len() && j != k ==> !#[trigger] outputs[j],
    ensures
        v == 1u16 << k,
{
    assert forall|i: u16| i < 16 implies #[trigger] bit_set(v, i) == bit_set(1u16 << k, i) by {
        assert(bit_set(1u16 << k, i) == (i == k)) by (bit_vector)
            requires
                i < 16,
                k < 16,
        ;
        assert(bit_set(v, i) == output_bit(outputs, i as int));
    }
    lemma_bits_determine_word(v, 1u16 << k);
}

/// Writing output states and reading them back through the input decoding
/// gives, for each of the sixteen channels, the written state, and off for
/// channels with no written state.
pub proof fn lemma_outputs_read_back(outputs: Seq<bool>, v: u16)
    requires
        packs(v, outputs),
    ensures
        input_states(le_u16_at(le_u16_bytes(v), 0) as u16) == Seq::new(
            CHANNELS as nat,
            |i: int| output_bit(outputs, i),
        ),
        forall|i: int|
            0 <= i < 16 ==> #[trigger] input_states(le_u16_at(le_u16_bytes(v), 0) as u16)[i] == (i
                < outputs.len() && outputs[i]),
{
    crate::wire::lemma_le_u16_roundtrip(v);
    let lhs = input_states(le_u16_at(le_u16_bytes(v), 0) as u16);
    let rhs = Seq::new(CHANNELS as nat, |i: int| output_bit(outputs, i));
    assert forall|i: int| 0 <= i < CHANNELS implies lhs[i] == rhs[i] by {
        assert(bit_set(v, i as u16) == output_bit(outputs, (i as u16) as int));
    }
    assert(lhs =~= rhs);
}

} // verus!

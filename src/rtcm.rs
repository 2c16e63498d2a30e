//! The message dispatch: reads the 12-bit message number at the start of a
//! payload and hands the payload to the decoder of that message type.

use crate::bits::{bytes_to_bits, lemma_first_twelve_bits};
use crate::error::{DecodeError, EncodeError};
use crate::fields::{layout_width, lemma_fields_round_trip, lemma_read_fields_first, uf, Field};
use crate::flat::{flat_bits, flat_error, lemma_flat_round_trip, parse_flat, FlatModel};
use crate::msm::{lemma_msm_round_trip, msm_bits, msm_error, parse_msm, MsmModel, RtcmMSM7};
use crate::observation::{
    lemma_observation_round_trip, observation_bits, observation_error, parse_observation,
    ObservationModel, Rtcm1001, Rtcm1002, Rtcm1003, Rtcm1004,
};
use crate::record::{lemma_record_round_trip, record_values_at, Record};
use crate::records::{
    MsmHeader, Rtcm1001Satellite, Rtcm1002Satellite, Rtcm1003Satellite, Rtcm1004Satellite, Rtcm1005,
    Rtcm1006, Rtcm1019, RtcmHeader,
};
use vstd::prelude::*;

verus! {

/// A decoded message: one of the supported types, or the number of a
/// message type that has no decoder.
#[derive(Debug, PartialEq)]
pub enum Rtcm {
    Rtcm1001(Rtcm1001),
    Rtcm1002(Rtcm1002),
    Rtcm1003(Rtcm1003),
    Rtcm1004(Rtcm1004),
    Rtcm1005(Rtcm1005),
    Rtcm1006(Rtcm1006),
    Rtcm1019(Rtcm1019),
    RtcmMSM7(RtcmMSM7),
    UnsupportedType(u16),
}

/// The message number: the first 12 bits of the payload.
pub open spec fn message_id(data: Seq<u8>) -> int {
    data[0] * 16 + data[1] / 16
}

/// Whether `id` is the number of an MSM7 message (GPS, GLONASS, Galileo).
pub open spec fn is_msm7_id(id: int) -> bool {
    id == 1077 || id == 1087 || id == 1097
}

/// What decoding the payload `data` gives: the decoder of its message
/// number, an unsupported-type marker, or an error when the payload is too
/// short to hold the number.
pub open spec fn parse_outcome(r: Result<Rtcm, DecodeError>, data: Seq<u8>) -> bool {
    let bits = bytes_to_bits(data);
    if data.len() < 2 {
        r == Err::<Rtcm, DecodeError>(DecodeError::Incomplete)
    } else {
        let id = message_id(data);
        if id == 1001 {
            match r {
                Ok(Rtcm::Rtcm1001(m)) => {
                    parse_observation(bits, Rtcm1001Satellite::spec_layout())
                        == Ok::<ObservationModel, DecodeError>(m.model())
                },
                Ok(_) => false,
                Err(e) => {
                    parse_observation(bits, Rtcm1001Satellite::spec_layout())
                        == Err::<ObservationModel, DecodeError>(e)
                },
            }
        } else if id == 1002 {
            match r {
                Ok(Rtcm::Rtcm1002(m)) => {
                    parse_observation(bits, Rtcm1002Satellite::spec_layout())
                        == Ok::<ObservationModel, DecodeError>(m.model())
                },
                Ok(_) => false,
                Err(e) => {
                    parse_observation(bits, Rtcm1002Satellite::spec_layout())
                        == Err::<ObservationModel, DecodeError>(e)
                },
            }
        } else if id == 1003 {
            match r {
                Ok(Rtcm::Rtcm1003(m)) => {
                    parse_observation(bits, Rtcm1003Satellite::spec_layout())
                        == Ok::<ObservationModel, DecodeError>(m.model())
                },
                Ok(_) => false,
                Err(e) => {
                    parse_observation(bits, Rtcm1003Satellite::spec_layout())
                        == Err::<ObservationModel, DecodeError>(e)
                },
            }
        } else if id == 1004 {
            match r {
                Ok(Rtcm::Rtcm1004(m)) => {
                    parse_observation(bits, Rtcm1004Satellite::spec_layout())
                        == Ok::<ObservationModel, DecodeError>(m.model())
                },
                Ok(_) => false,
                Err(e) => {
                    parse_observation(bits, Rtcm1004Satellite::spec_layout())
                        == Err::<ObservationModel, DecodeError>(e)
                },
            }
        } else if id == 1005 {
            match r {
                Ok(Rtcm::Rtcm1005(m)) => parse_flat(bits, Rtcm1005::spec_layout()) == Ok::<
                    FlatModel,
                    DecodeError,
                >(m.model()),
                Ok(_) => false,
                Err(e) => {
                    parse_flat(bits, Rtcm1005::spec_layout()) == Err::<FlatModel, DecodeError>(e)
                },
            }
        } else if id == 1006 {
            match r {
                Ok(Rtcm::Rtcm1006(m)) => parse_flat(bits, Rtcm1006::spec_layout()) == Ok::<
                    FlatModel,
                    DecodeError,
                >(m.model()),
                Ok(_) => false,
                Err(e) => {
                    parse_flat(bits, Rtcm1006::spec_layout()) == Err::<FlatModel, DecodeError>(e)
                },
            }
        } else if id == 1019 {
            match r {
                Ok(Rtcm::Rtcm1019(m)) => parse_flat(bits, Rtcm1019::spec_layout()) == Ok::<
                    FlatModel,
                    DecodeError,
                >(m.model()),
                Ok(_) => false,
                Err(e) => {
                    parse_flat(bits, Rtcm1019::spec_layout()) == Err::<FlatModel, DecodeError>(e)
                },
            }
        } else if is_msm7_id(id) {
            match r {
                Ok(Rtcm::RtcmMSM7(m)) => parse_msm(bits) == Ok::<MsmModel, DecodeError>(m.model()),
                Ok(_) => false,
                Err(e) => parse_msm(bits) == Err::<MsmModel, DecodeError>(e),
            }
        } else {
            r == Ok::<Rtcm, DecodeError>(Rtcm::UnsupportedType(id as u16))
        }
    }
}

impl Rtcm {
    /// Decodes a payload: the first 12 bits select the message type, whose
    /// decoder then reads the whole payload, those 12 bits included. A type
    /// without a decoder is reported as `UnsupportedType`, not as an error.
    pub fn parse(data: &[u8]) -> (r: Result<Rtcm, DecodeError>)
        requires
            8 * data@.len() <= usize::MAX,
        ensures
            parse_outcome(r, data@),
    {
        if data.len() < 2 {
            return Err(DecodeError::Incomplete);
        }
        let msg_id: u16 = (data[0] as u16) * 16 + (data[1] as u16) / 16;
        match msg_id {
            1001 => match Rtcm1001::decode(data) {
                Ok(m) => Ok(Rtcm::Rtcm1001(m)),
                Err(e) => Err(e),
            },
            1002 => match Rtcm1002::decode(data) {
                Ok(m) => Ok(Rtcm::Rtcm1002(m)),
                Err(e) => Err(e),
            },
            1003 => match Rtcm1003::decode(data) {
                Ok(m) => Ok(Rtcm::Rtcm1003(m)),
                Err(e) => Err(e),
            },
            1004 => match Rtcm1004::decode(data) {
                Ok(m) => Ok(Rtcm::Rtcm1004(m)),
                Err(e) => Err(e),
            },
            1005 => match Rtcm1005::decode(data) {
                Ok(m) => Ok(Rtcm::Rtcm1005(m)),
                Err(e) => Err(e),
            },
            1006 => match Rtcm1006::decode(data) {
                Ok(m) => Ok(Rtcm::Rtcm1006(m)),
                Err(e) => Err(e),
            },
            1019 => match Rtcm1019::decode(data) {
                Ok(m) => Ok(Rtcm::Rtcm1019(m)),
                Err(e) => Err(e),
            },
            1077 | 1087 | 1097 => match RtcmMSM7::decode(data) {
                Ok(m) => Ok(Rtcm::RtcmMSM7(m)),
                Err(e) => Err(e),
            },
            any => Ok(Rtcm::UnsupportedType(any)),
        }
    }
}

/// The message number carried by the first field of a header whose layout
/// starts with a 12-bit unsigned field is the number that the dispatch reads.
pub proof fn lemma_message_id(data: Seq<u8>, layout: Seq<Field>)
    requires
        layout.len() >= 1,
        layout[0] == uf(12),
        layout_width(layout) <= 8 * data.len(),
    ensures
        data.len() >= 2,
        record_values_at(bytes_to_bits(data), 0, layout).unwrap()[0] == message_id(data),
{
    let bits = bytes_to_bits(data);
    let s = bits.subrange(0, layout_width(layout) as int);
    lemma_read_fields_first(layout, s);
    assert(s.subrange(0, 12) =~= bits.take(12));
    lemma_first_twelve_bits(data);
}

impl Rtcm {
    /// Whether the message can be encoded: a supported type, well formed,
    /// whose header carries a number of that type.
    pub open spec fn wf(&self) -> bool {
        match self {
            Rtcm::Rtcm1001(m) => m.wf() && m.header.message_number == 1001,
            Rtcm::Rtcm1002(m) => m.wf() && m.header.message_number == 1002,
            Rtcm::Rtcm1003(m) => m.wf() && m.header.message_number == 1003,
            Rtcm::Rtcm1004(m) => m.wf() && m.header.message_number == 1004,
            Rtcm::Rtcm1005(m) => m.wf() && m.message_number == 1005,
            Rtcm::Rtcm1006(m) => m.wf() && m.message_number == 1006,
            Rtcm::Rtcm1019(m) => m.wf() && m.message_number == 1019,
            Rtcm::RtcmMSM7(m) => m.wf() && is_msm7_id(m.header.message_number as int),
            Rtcm::UnsupportedType(_) => false,
        }
    }

    /// The payload bits of the message.
    pub open spec fn bits(&self) -> Seq<bool> {
        match self {
            Rtcm::Rtcm1001(m) => observation_bits(m.model(), Rtcm1001Satellite::spec_layout()),
            Rtcm::Rtcm1002(m) => observation_bits(m.model(), Rtcm1002Satellite::spec_layout()),
            Rtcm::Rtcm1003(m) => observation_bits(m.model(), Rtcm1003Satellite::spec_layout()),
            Rtcm::Rtcm1004(m) => observation_bits(m.model(), Rtcm1004Satellite::spec_layout()),
            Rtcm::Rtcm1005(m) => flat_bits(m.model(), Rtcm1005::spec_layout()),
            Rtcm::Rtcm1006(m) => flat_bits(m.model(), Rtcm1006::spec_layout()),
            Rtcm::Rtcm1019(m) => flat_bits(m.model(), Rtcm1019::spec_layout()),
            Rtcm::RtcmMSM7(m) => msm_bits(m.model()),
            Rtcm::UnsupportedType(_) => Seq::empty(),
        }
    }

    /// Which error encoding the message reports when it is not well formed:
    /// a number of another type first, then what its type's encoder reports.
    pub open spec fn encode_error(&self) -> EncodeError {
        match self {
            Rtcm::Rtcm1001(m) => if m.header.message_number != 1001 {
                EncodeError::WrongMessageNumber
            } else {
                observation_error(m.model(), Rtcm1001Satellite::spec_layout())
            },
            Rtcm::Rtcm1002(m) => if m.header.message_number != 1002 {
                EncodeError::WrongMessageNumber
            } else {
                observation_error(m.model(), Rtcm1002Satellite::spec_layout())
            },
            Rtcm::Rtcm1003(m) => if m.header.message_number != 1003 {
                EncodeError::WrongMessageNumber
            } else {
                observation_error(m.model(), Rtcm1003Satellite::spec_layout())
            },
            Rtcm::Rtcm1004(m) => if m.header.message_number != 1004 {
                EncodeError::WrongMessageNumber
            } else {
                observation_error(m.model(), Rtcm1004Satellite::spec_layout())
            },
            Rtcm::Rtcm1005(m) => if m.message_number != 1005 {
                EncodeError::WrongMessageNumber
            } else {
                flat_error(m.model(), Rtcm1005::spec_layout())
            },
            Rtcm::Rtcm1006(m) => if m.message_number != 1006 {
                EncodeError::WrongMessageNumber
            } else {
                flat_error(m.model(), Rtcm1006::spec_layout())
            },
            Rtcm::Rtcm1019(m) => if m.message_number != 1019 {
                EncodeError::WrongMessageNumber
            } else {
                flat_error(m.model(), Rtcm1019::spec_layout())
            },
            Rtcm::RtcmMSM7(m) => if !is_msm7_id(m.header.message_number as int) {
                EncodeError::WrongMessageNumber
            } else {
                msm_error(m.model())
            },
            Rtcm::UnsupportedType(_) => EncodeError::UnsupportedType,
        }
    }

    /// Whether two messages are of one type and hold the same values.
    pub open spec fn same_as(&self, other: &Rtcm) -> bool {
        match (self, other) {
            (Rtcm::Rtcm1001(a), Rtcm::Rtcm1001(b)) => a.model() == b.model(),
            (Rtcm::Rtcm1002(a), Rtcm::Rtcm1002(b)) => a.model() == b.model(),
            (Rtcm::Rtcm1003(a), Rtcm::Rtcm1003(b)) => a.model() == b.model(),
            (Rtcm::Rtcm1004(a), Rtcm::Rtcm1004(b)) => a.model() == b.model(),
            (Rtcm::Rtcm1005(a), Rtcm::Rtcm1005(b)) => a.model() == b.model(),
            (Rtcm::Rtcm1006(a), Rtcm::Rtcm1006(b)) => a.model() == b.model(),
            (Rtcm::Rtcm1019(a), Rtcm::Rtcm1019(b)) => a.model() == b.model(),
            (Rtcm::RtcmMSM7(a), Rtcm::RtcmMSM7(b)) => a.model() == b.model(),
            (Rtcm::UnsupportedType(a), Rtcm::UnsupportedType(b)) => a == b,
            _ => false,
        }
    }

    /// Encodes the message as a payload; fails exactly when it is not
    /// well formed (an unsupported-type marker never is), with the error
    /// that `encode_error` names.
    pub fn encode(&self) -> (r: Result<Vec<u8>, EncodeError>)
        ensures
            match r {
                Ok(b) => self.wf() && bytes_to_bits(b@) == self.bits(),
                Err(e) => !self.wf() && e == self.encode_error(),
            },
    {
        match self {
            Rtcm::Rtcm1001(m) => if m.header.message_number != 1001 {
                Err(EncodeError::WrongMessageNumber)
            } else {
                m.encode()
            },
            Rtcm::Rtcm1002(m) => if m.header.message_number != 1002 {
                Err(EncodeError::WrongMessageNumber)
            } else {
                m.encode()
            },
            Rtcm::Rtcm1003(m) => if m.header.message_number != 1003 {
                Err(EncodeError::WrongMessageNumber)
            } else {
                m.encode()
            },
            Rtcm::Rtcm1004(m) => if m.header.message_number != 1004 {
                Err(EncodeError::WrongMessageNumber)
            } else {
                m.encode()
            },
            Rtcm::Rtcm1005(m) => if m.message_number != 1005 {
                Err(EncodeError::WrongMessageNumber)
            } else {
                m.encode()
            },
            Rtcm::Rtcm1006(m) => if m.message_number != 1006 {
                Err(EncodeError::WrongMessageNumber)
            } else {
                m.encode()
            },
            Rtcm::Rtcm1019(m) => if m.message_number != 1019 {
                Err(EncodeError::WrongMessageNumber)
            } else {
                m.encode()
            },
            Rtcm::RtcmMSM7(m) => {
                let n = m.header.message_number;
                if n != 1077 && n != 1087 && n != 1097 {
                    Err(EncodeError::WrongMessageNumber)
                } else {
                    m.encode()
                }
            },
            Rtcm::UnsupportedType(_) => Err(EncodeError::UnsupportedType),
        }
    }
}

/// The payload of an encoded observation message carries its number and
/// decodes to it.
pub proof fn lemma_observation_payload(m: ObservationModel, sat: Seq<Field>, data: Seq<u8>)
    requires
        crate::fields::layout_wf(sat),
        crate::observation::observation_wf(m, sat),
        bytes_to_bits(data) == observation_bits(m, sat),
    ensures
        data.len() >= 2,
        message_id(data) == m.0[0],
        parse_observation(bytes_to_bits(data), sat) == Ok::<ObservationModel, DecodeError>(m),
{
    let bits = bytes_to_bits(data);
    let hl = RtcmHeader::spec_layout();
    RtcmHeader::lemma_layout_wf();
    lemma_observation_round_trip(m, sat);
    lemma_fields_round_trip(hl, m.0);
    let rest = bits.skip(layout_width(hl) as int);
    assert(bits =~= Seq::empty() + crate::fields::write_fields(hl, m.0) + rest);
    lemma_record_round_trip(hl, m.0, Seq::empty(), rest);
    lemma_message_id(data, hl);
}

/// The payload of an encoded single-record message carries its number and
/// decodes to it.
pub proof fn lemma_flat_payload(m: FlatModel, layout: Seq<Field>, data: Seq<u8>)
    requires
        crate::fields::layout_wf(layout),
        layout.len() >= 1,
        layout[0] == uf(12),
        crate::flat::flat_wf(m, layout),
        bytes_to_bits(data) == flat_bits(m, layout),
    ensures
        data.len() >= 2,
        message_id(data) == m.0[0],
        parse_flat(bytes_to_bits(data), layout) == Ok::<FlatModel, DecodeError>(m),
{
    let bits = bytes_to_bits(data);
    lemma_flat_round_trip(m, layout);
    lemma_fields_round_trip(layout, m.0);
    assert(bits =~= Seq::empty() + crate::fields::write_fields(layout, m.0) + m.1);
    lemma_record_round_trip(layout, m.0, Seq::empty(), m.1);
    lemma_message_id(data, layout);
}

/// The payload of an encoded MSM7 message carries its number and decodes
/// to it.
pub proof fn lemma_msm_payload(m: MsmModel, data: Seq<u8>)
    requires
        crate::msm::msm_wf(m),
        bytes_to_bits(data) == msm_bits(m),
    ensures
        data.len() >= 2,
        message_id(data) == m.0[0],
        parse_msm(bytes_to_bits(data)) == Ok::<MsmModel, DecodeError>(m),
{
    let bits = bytes_to_bits(data);
    let hl = MsmHeader::spec_layout();
    MsmHeader::lemma_layout_wf();
    lemma_msm_round_trip(m);
    lemma_fields_round_trip(hl, m.0);
    let rest = bits.skip(layout_width(hl) as int);
    assert(bits =~= Seq::empty() + crate::fields::write_fields(hl, m.0) + rest);
    lemma_record_round_trip(hl, m.0, Seq::empty(), rest);
    lemma_message_id(data, hl);
}

#[verifier::rlimit(50)]
proof fn lemma_round_trip_1001(x: Rtcm1001, data: Seq<u8>, r: Result<Rtcm, DecodeError>)
    requires
        Rtcm::Rtcm1001(x).wf(),
        bytes_to_bits(data) == Rtcm::Rtcm1001(x).bits(),
        parse_outcome(r, data),
    ensures
        r matches Ok(Rtcm::Rtcm1001(d)) && d.model() == x.model(),
{
    Rtcm1001Satellite::lemma_layout_wf();
    lemma_observation_payload(x.model(), Rtcm1001Satellite::spec_layout(), data);
    assert(message_id(data) == 1001);
}

#[verifier::rlimit(50)]
proof fn lemma_round_trip_1002(x: Rtcm1002, data: Seq<u8>, r: Result<Rtcm, DecodeError>)
    requires
        Rtcm::Rtcm1002(x).wf(),
        bytes_to_bits(data) == Rtcm::Rtcm1002(x).bits(),
        parse_outcome(r, data),
    ensures
        r matches Ok(Rtcm::Rtcm1002(d)) && d.model() == x.model(),
{
    Rtcm1002Satellite::lemma_layout_wf();
    lemma_observation_payload(x.model(), Rtcm1002Satellite::spec_layout(), data);
    assert(message_id(data) == 1002);
}

#[verifier::rlimit(50)]
proof fn lemma_round_trip_1003(x: Rtcm1003, data: Seq<u8>, r: Result<Rtcm, DecodeError>)
    requires
        Rtcm::Rtcm1003(x).wf(),
        bytes_to_bits(data) == Rtcm::Rtcm1003(x).bits(),
        parse_outcome(r, data),
    ensures
        r matches Ok(Rtcm::Rtcm1003(d)) && d.model() == x.model(),
{
    Rtcm1003Satellite::lemma_layout_wf();
    lemma_observation_payload(x.model(), Rtcm1003Satellite::spec_layout(), data);
    assert(message_id(data) == 1003);
}

#[verifier::rlimit(50)]
proof fn lemma_round_trip_1004(x: Rtcm1004, data: Seq<u8>, r: Result<Rtcm, DecodeError>)
    requires
        Rtcm::Rtcm1004(x).wf(),
        bytes_to_bits(data) == Rtcm::Rtcm1004(x).bits(),
        parse_outcome(r, data),
    ensures
        r matches Ok(Rtcm::Rtcm1004(d)) && d.model() == x.model(),
{
    Rtcm1004Satellite::lemma_layout_wf();
    lemma_observation_payload(x.model(), Rtcm1004Satellite::spec_layout(), data);
    assert(message_id(data) == 1004);
}

#[verifier::rlimit(50)]
proof fn lemma_round_trip_1005(x: Rtcm1005, data: Seq<u8>, r: Result<Rtcm, DecodeError>)
    requires
        Rtcm::Rtcm1005(x).wf(),
        bytes_to_bits(data) == Rtcm::Rtcm1005(x).bits(),
        parse_outcome(r, data),
    ensures
        r matches Ok(Rtcm::Rtcm1005(d)) && d.model() == x.model(),
{
    Rtcm1005::lemma_layout_wf();
    lemma_flat_payload(x.model(), Rtcm1005::spec_layout(), data);
    assert(message_id(data) == 1005);
}

#[verifier::rlimit(50)]
proof fn lemma_round_trip_1006(x: Rtcm1006, data: Seq<u8>, r: Result<Rtcm, DecodeError>)
    requires
        Rtcm::Rtcm1006(x).wf(),
        bytes_to_bits(data) == Rtcm::Rtcm1006(x).bits(),
        parse_outcome(r, data),
    ensures
        r matches Ok(Rtcm::Rtcm1006(d)) && d.model() == x.model(),
{
    Rtcm1006::lemma_layout_wf();
    lemma_flat_payload(x.model(), Rtcm1006::spec_layout(), data);
    assert(message_id(data) == 1006);
}

#[verifier::rlimit(50)]
proof fn lemma_round_trip_1019(x: Rtcm1019, data: Seq<u8>, r: Result<Rtcm, DecodeError>)
    requires
        Rtcm::Rtcm1019(x).wf(),
        bytes_to_bits(data) == Rtcm::Rtcm1019(x).bits(),
        parse_outcome(r, data),
    ensures
        r matches Ok(Rtcm::Rtcm1019(d)) && d.model() == x.model(),
{
    Rtcm1019::lemma_layout_wf();
    lemma_flat_payload(x.model(), Rtcm1019::spec_layout(), data);
    assert(message_id(data) == 1019);
}

#[verifier::rlimit(50)]
proof fn lemma_round_trip_msm7(x: RtcmMSM7, data: Seq<u8>, r: Result<Rtcm, DecodeError>)
    requires
        Rtcm::RtcmMSM7(x).wf(),
        bytes_to_bits(data) == Rtcm::RtcmMSM7(x).bits(),
        parse_outcome(r, data),
    ensures
        r matches Ok(Rtcm::RtcmMSM7(d)) && d.model() == x.model(),
{
    lemma_msm_payload(x.model(), data);
    assert(is_msm7_id(message_id(data)));
}

/// Decoding what a message encodes to gives the message back: whatever
/// `Rtcm::parse` returns on a payload whose bits are those of a well-formed
/// message is that message.
pub proof fn lemma_rtcm_round_trip(m: Rtcm, data: Seq<u8>, r: Result<Rtcm, DecodeError>)
    requires
        m.wf(),
        bytes_to_bits(data) == m.bits(),
        parse_outcome(r, data),
    ensures
        r matches Ok(d) && d.same_as(&m),
{
    match m {
        Rtcm::Rtcm1001(x) => lemma_round_trip_1001(x, data, r),
        Rtcm::Rtcm1002(x) => lemma_round_trip_1002(x, data, r),
        Rtcm::Rtcm1003(x) => lemma_round_trip_1003(x, data, r),
        Rtcm::Rtcm1004(x) => lemma_round_trip_1004(x, data, r),
        Rtcm::Rtcm1005(x) => lemma_round_trip_1005(x, data, r),
        Rtcm::Rtcm1006(x) => lemma_round_trip_1006(x, data, r),
        Rtcm::Rtcm1019(x) => lemma_round_trip_1019(x, data, r),
        Rtcm::RtcmMSM7(x) => lemma_round_trip_msm7(x, data, r),
        Rtcm::UnsupportedType(_) => {},
    }
}

} // verus!


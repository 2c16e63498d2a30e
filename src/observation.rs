//! The GPS observation messages 1001 to 1004: a header, as many satellite
//! records as the header's satellite-signal count says, and padding.

use crate::bits::bytes_to_bits;
use crate::error::{DecodeError, EncodeError};
use crate::fields::{layout_width, read_fields, values_fit, write_fields, Field};
use crate::record::{
    lemma_record_round_trip, lemma_records_round_trip, lemma_write_records_len, pack_bits,
    padding_len, read_many, read_one, read_padding, record_values_at, records_at, records_fit,
    values_of, push_bits, write_many, write_one, write_records, Record,
};
use crate::records::{
    Rtcm1001Satellite, Rtcm1002Satellite, Rtcm1003Satellite, Rtcm1004Satellite, RtcmHeader,
};
use vstd::prelude::*;

verus! {

/// An observation message as values: the header's field values, each
/// satellite's field values, and the padding bits.
pub type ObservationModel = (Seq<i128>, Seq<Seq<i128>>, Seq<bool>);

/// Position of the satellite-signal count among the header's fields.
pub open spec fn count_index() -> int {
    4
}

/// Decoding of an observation payload whose satellites have the layout `sat`.
pub open spec fn parse_observation(bits: Seq<bool>, sat: Seq<Field>) -> Result<
    ObservationModel,
    DecodeError,
> {
    match record_values_at(bits, 0, RtcmHeader::spec_layout()) {
        None => Err(DecodeError::Incomplete),
        Some(h) => {
            let p = layout_width(RtcmHeader::spec_layout()) as int;
            let n = h[count_index()] as nat;
            match records_at(bits, p, sat, n) {
                None => Err(DecodeError::Incomplete),
                Some(sats) => {
                    let q = p + n * layout_width(sat);
                    let e = q + padding_len(bits.len() as int, q);
                    if e != bits.len() {
                        Err(DecodeError::TrailingData)
                    } else {
                        Ok((h, sats, bits.subrange(q, e)))
                    }
                },
            }
        },
    }
}

/// Whether an observation message can be written as it stands: every field
/// fits its width, the satellite count matches, and the padding completes
/// the last byte.
pub open spec fn observation_wf(m: ObservationModel, sat: Seq<Field>) -> bool {
    &&& values_fit(RtcmHeader::spec_layout(), m.0)
    &&& records_fit(sat, m.1)
    &&& m.1.len() == m.0[count_index()]
    &&& m.2.len() < 8
    &&& (layout_width(RtcmHeader::spec_layout()) + m.1.len() * layout_width(sat) + m.2.len()) % 8
        == 0
}

/// Which error encoding an ill-formed observation message reports: the
/// first of header range, satellite count, satellite range and padding that
/// fails.
pub open spec fn observation_error(m: ObservationModel, sat: Seq<Field>) -> EncodeError {
    if !values_fit(RtcmHeader::spec_layout(), m.0) {
        EncodeError::ValueOutOfRange
    } else if m.1.len() != m.0[count_index()] {
        EncodeError::CountMismatch
    } else if !records_fit(sat, m.1) {
        EncodeError::ValueOutOfRange
    } else {
        EncodeError::BadPadding
    }
}

/// The bits of an observation message.
pub open spec fn observation_bits(m: ObservationModel, sat: Seq<Field>) -> Seq<bool> {
    write_fields(RtcmHeader::spec_layout(), m.0) + write_records(sat, m.1) + m.2
}

/// Decoding an encoded observation message gives it back.
pub proof fn lemma_observation_round_trip(m: ObservationModel, sat: Seq<Field>)
    requires
        crate::fields::layout_wf(sat),
        observation_wf(m, sat),
    ensures
        observation_bits(m, sat).len() % 8 == 0,
        parse_observation(observation_bits(m, sat), sat) == Ok::<ObservationModel, DecodeError>(m),
{
    RtcmHeader::lemma_layout_wf();
    let hb = write_fields(RtcmHeader::spec_layout(), m.0);
    let sb = write_records(sat, m.1);
    let bits = observation_bits(m, sat);
    crate::fields::lemma_fields_round_trip(RtcmHeader::spec_layout(), m.0);
    lemma_write_records_len(sat, m.1);
    lemma_record_round_trip(RtcmHeader::spec_layout(), m.0, Seq::empty(), sb + m.2);
    assert(bits =~= Seq::empty() + hb + (sb + m.2));
    lemma_records_round_trip(sat, m.1, hb, m.2);
    assert(bits =~= hb + sb + m.2);
    let q = hb.len() + sb.len();
    assert(padding_len(bits.len() as int, q as int) == m.2.len());
    assert(bits.subrange(q as int, bits.len() as int) =~= m.2);
}

/// A header that announces `n` satellites gives exactly `n` satellite
/// records, which take exactly `n` times the satellite layout's width; when
/// fewer than `n` fit in the payload, decoding fails as incomplete.
pub proof fn lemma_observation_count(bits: Seq<bool>, sat: Seq<Field>)
    ensures
        parse_observation(bits, sat) matches Ok(m) ==> {
            &&& m.1.len() == m.0[count_index()]
            &&& bits.len() == layout_width(RtcmHeader::spec_layout()) + m.1.len() * layout_width(
                sat,
            ) + m.2.len()
        },
        record_values_at(bits, 0, RtcmHeader::spec_layout()) matches Some(h) ==> (
        layout_width(RtcmHeader::spec_layout()) + (h[count_index()] as nat) * layout_width(sat)
            > bits.len() ==> parse_observation(bits, sat) == Err::<ObservationModel, DecodeError>(
            DecodeError::Incomplete,
        )),
{
    let hl = RtcmHeader::spec_layout();
    let hw = layout_width(hl);
    if 0 + hw <= bits.len() {
        RtcmHeader::lemma_layout_wf();
        crate::fields::lemma_read_fields_fit(hl, bits.subrange(0, hw as int));
        let h = read_fields(hl, bits.subrange(0, hw as int));
        assert(hl[count_index()].fits(h[count_index()] as int));
    }
}

/// Decodes an observation payload whose satellites are records of type `S`.
fn decode_observation<S: Record>(data: &[u8]) -> (r: Result<
    (RtcmHeader, Vec<S>, Vec<bool>),
    DecodeError,
>)
    requires
        8 * data@.len() <= usize::MAX,
    ensures
        match r {
            Ok((h, sats, pad)) => {
                parse_observation(bytes_to_bits(data@), S::spec_layout())
                    == Ok::<ObservationModel, DecodeError>((h.values(), values_of(sats@), pad@))
            },
            Err(e) => parse_observation(bytes_to_bits(data@), S::spec_layout()) == Err::<
                ObservationModel,
                DecodeError,
            >(e),
        },
{
    let (h, p) = match read_one::<RtcmHeader>(data, 0) {
        Ok(x) => x,
        Err(e) => return Err(e),
    };
    let n = h.num_gps_satellite_signals_processed as usize;
    let (sats, q) = match read_many::<S>(data, p, n) {
        Ok(x) => x,
        Err(e) => return Err(e),
    };
    let (pad, e) = read_padding(data, q);
    if e != 8 * data.len() {
        return Err(DecodeError::TrailingData);
    }
    Ok((h, sats, pad))
}

/// Encodes an observation message whose satellites are records of type `S`.
fn encode_observation<S: Record>(h: &RtcmHeader, sats: &Vec<S>, pad: &Vec<bool>) -> (r: Result<
    Vec<u8>,
    EncodeError,
>)
    ensures
        match r {
            Ok(b) => {
                &&& observation_wf((h.values(), values_of(sats@), pad@), S::spec_layout())
                &&& bytes_to_bits(b@) == observation_bits(
                    (h.values(), values_of(sats@), pad@),
                    S::spec_layout(),
                )
            },
            Err(e) => {
                &&& !observation_wf((h.values(), values_of(sats@), pad@), S::spec_layout())
                &&& e == observation_error((h.values(), values_of(sats@), pad@), S::spec_layout())
            },
        },
{
    let ghost m = (h.values(), values_of(sats@), pad@);
    let mut out: Vec<bool> = Vec::new();
    match write_one(&mut out, h) {
        Ok(()) => {},
        Err(e) => return Err(e),
    }
    if sats.len() != h.num_gps_satellite_signals_processed as usize {
        return Err(EncodeError::CountMismatch);
    }
    match write_many(&mut out, sats) {
        Ok(()) => {},
        Err(e) => return Err(e),
    }
    proof {
        S::lemma_layout_wf();
        lemma_write_records_len(S::spec_layout(), values_of(sats@));
        crate::fields::lemma_fields_round_trip(RtcmHeader::spec_layout(), h.values());
    }
    push_bits(&mut out, pad);
    if pad.len() >= 8 || out.len() % 8 != 0 {
        return Err(EncodeError::BadPadding);
    }
    Ok(pack_bits(&out))
}

/// Message 1001: L1-only GPS RTK observables.
#[derive(Debug, PartialEq)]
pub struct Rtcm1001 {
    pub header: RtcmHeader,
    pub satellites: Vec<Rtcm1001Satellite>,
    pub padding: Vec<bool>,
}

impl Rtcm1001 {
    /// The message as values.
    pub open spec fn model(&self) -> ObservationModel {
        (self.header.values(), values_of(self.satellites@), self.padding@)
    }

    /// Whether the message can be encoded as it stands.
    pub open spec fn wf(&self) -> bool {
        observation_wf(self.model(), Rtcm1001Satellite::spec_layout())
    }

    /// Decodes a message 1001 payload.
    pub fn decode(data: &[u8]) -> (r: Result<Self, DecodeError>)
        requires
            8 * data@.len() <= usize::MAX,
        ensures
            match r {
                Ok(m) => parse_observation(bytes_to_bits(data@), Rtcm1001Satellite::spec_layout())
                    == Ok::<ObservationModel, DecodeError>(m.model()),
                Err(e) => parse_observation(bytes_to_bits(data@), Rtcm1001Satellite::spec_layout())
                    == Err::<ObservationModel, DecodeError>(e),
            },
    {
        match decode_observation::<Rtcm1001Satellite>(data) {
            Ok((header, satellites, padding)) => Ok(Rtcm1001 { header, satellites, padding }),
            Err(e) => Err(e),
        }
    }

    /// Encodes the message as a payload; fails exactly when it is not
    /// well formed, with the error that `observation_error` names.
    pub fn encode(&self) -> (r: Result<Vec<u8>, EncodeError>)
        ensures
            match r {
                Ok(b) => self.wf() && bytes_to_bits(b@) == observation_bits(
                    self.model(),
                    Rtcm1001Satellite::spec_layout(),
                ),
                Err(e) => !self.wf() && e == observation_error(
                    self.model(),
                    Rtcm1001Satellite::spec_layout(),
                ),
            },
    {
        encode_observation(&self.header, &self.satellites, &self.padding)
    }
}

/// Message 1002: extended L1-only GPS RTK observables.
#[derive(Debug, PartialEq)]
pub struct Rtcm1002 {
    pub header: RtcmHeader,
    pub satellites: Vec<Rtcm1002Satellite>,
    pub padding: Vec<bool>,
}

impl Rtcm1002 {
    /// The message as values.
    pub open spec fn model(&self) -> ObservationModel {
        (self.header.values(), values_of(self.satellites@), self.padding@)
    }

    /// Whether the message can be encoded as it stands.
    pub open spec fn wf(&self) -> bool {
        observation_wf(self.model(), Rtcm1002Satellite::spec_layout())
    }

    /// Decodes a message 1002 payload.
    pub fn decode(data: &[u8]) -> (r: Result<Self, DecodeError>)
        requires
            8 * data@.len() <= usize::MAX,
        ensures
            match r {
                Ok(m) => parse_observation(bytes_to_bits(data@), Rtcm1002Satellite::spec_layout())
                    == Ok::<ObservationModel, DecodeError>(m.model()),
                Err(e) => parse_observation(bytes_to_bits(data@), Rtcm1002Satellite::spec_layout())
                    == Err::<ObservationModel, DecodeError>(e),
            },
    {
        match decode_observation::<Rtcm1002Satellite>(data) {
            Ok((header, satellites, padding)) => Ok(Rtcm1002 { header, satellites, padding }),
            Err(e) => Err(e),
        }
    }

    /// Encodes the message as a payload; fails exactly when it is not
    /// well formed, with the error that `observation_error` names.
    pub fn encode(&self) -> (r: Result<Vec<u8>, EncodeError>)
        ensures
            match r {
                Ok(b) => self.wf() && bytes_to_bits(b@) == observation_bits(
                    self.model(),
                    Rtcm1002Satellite::spec_layout(),
                ),
                Err(e) => !self.wf() && e == observation_error(
                    self.model(),
                    Rtcm1002Satellite::spec_layout(),
                ),
            },
    {
        encode_observation(&self.header, &self.satellites, &self.padding)
    }
}

/// Message 1003: L1 and L2 GPS RTK observables.
#[derive(Debug, PartialEq)]
pub struct Rtcm1003 {
    pub header: RtcmHeader,
    pub satellites: Vec<Rtcm1003Satellite>,
    pub padding: Vec<bool>,
}

impl Rtcm1003 {
    /// The message as values.
    pub open spec fn model(&self) -> ObservationModel {
        (self.header.values(), values_of(self.satellites@), self.padding@)
    }

    /// Whether the message can be encoded as it stands.
    pub open spec fn wf(&self) -> bool {
        observation_wf(self.model(), Rtcm1003Satellite::spec_layout())
    }

    /// Decodes a message 1003 payload.
    pub fn decode(data: &[u8]) -> (r: Result<Self, DecodeError>)
        requires
            8 * data@.len() <= usize::MAX,
        ensures
            match r {
                Ok(m) => parse_observation(bytes_to_bits(data@), Rtcm1003Satellite::spec_layout())
                    == Ok::<ObservationModel, DecodeError>(m.model()),
                Err(e) => parse_observation(bytes_to_bits(data@), Rtcm1003Satellite::spec_layout())
                    == Err::<ObservationModel, DecodeError>(e),
            },
    {
        match decode_observation::<Rtcm1003Satellite>(data) {
            Ok((header, satellites, padding)) => Ok(Rtcm1003 { header, satellites, padding }),
            Err(e) => Err(e),
        }
    }

    /// Encodes the message as a payload; fails exactly when it is not
    /// well formed, with the error that `observation_error` names.
    pub fn encode(&self) -> (r: Result<Vec<u8>, EncodeError>)
        ensures
            match r {
                Ok(b) => self.wf() && bytes_to_bits(b@) == observation_bits(
                    self.model(),
                    Rtcm1003Satellite::spec_layout(),
                ),
                Err(e) => !self.wf() && e == observation_error(
                    self.model(),
                    Rtcm1003Satellite::spec_layout(),
                ),
            },
    {
        encode_observation(&self.header, &self.satellites, &self.padding)
    }
}

/// Message 1004: extended L1 and L2 GPS RTK observables.
#[derive(Debug, PartialEq)]
pub struct Rtcm1004 {
    pub header: RtcmHeader,
    pub satellites: Vec<Rtcm1004Satellite>,
    pub padding: Vec<bool>,
}

impl Rtcm1004 {
    /// The message as values.
    pub open spec fn model(&self) -> ObservationModel {
        (self.header.values(), values_of(self.satellites@), self.padding@)
    }

    /// Whether the message can be encoded as it stands.
    pub open spec fn wf(&self) -> bool {
        observation_wf(self.model(), Rtcm1004Satellite::spec_layout())
    }

    /// Decodes a message 1004 payload.
    pub fn decode(data: &[u8]) -> (r: Result<Self, DecodeError>)
        requires
            8 * data@.len() <= usize::MAX,
        ensures
            match r {
                Ok(m) => parse_observation(bytes_to_bits(data@), Rtcm1004Satellite::spec_layout())
                    == Ok::<ObservationModel, DecodeError>(m.model()),
                Err(e) => parse_observation(bytes_to_bits(data@), Rtcm1004Satellite::spec_layout())
                    == Err::<ObservationModel, DecodeError>(e),
            },
    {
        match decode_observation::<Rtcm1004Satellite>(data) {
            Ok((header, satellites, padding)) => Ok(Rtcm1004 { header, satellites, padding }),
            Err(e) => Err(e),
        }
    }

    /// Encodes the message as a payload; fails exactly when it is not
    /// well formed, with the error that `observation_error` names.
    pub fn encode(&self) -> (r: Result<Vec<u8>, EncodeError>)
        ensures
            match r {
                Ok(b) => self.wf() && bytes_to_bits(b@) == observation_bits(
                    self.model(),
                    Rtcm1004Satellite::spec_layout(),
                ),
                Err(e) => !self.wf() && e == observation_error(
                    self.model(),
                    Rtcm1004Satellite::spec_layout(),
                ),
            },
    {
        encode_observation(&self.header, &self.satellites, &self.padding)
    }
}

} // verus!

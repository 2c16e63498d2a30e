//! Messages made of one fixed-layout record and padding: 1005 and 1006
//! (antenna reference point) and 1019 (GPS ephemeris).

use crate::bits::bytes_to_bits;
use crate::error::{DecodeError, EncodeError};
use crate::fields::{
    layout_wf, layout_width, lemma_fields_round_trip, values_fit, write_fields, Field,
};
use crate::record::{
    lemma_record_round_trip, pack_bits, padding_len, push_bits, read_one, read_padding,
    record_values_at, write_one, Record,
};
use crate::records::{Rtcm1005, Rtcm1006, Rtcm1019};
use vstd::prelude::*;

verus! {

/// A single-record message as values: its field values and its padding bits.
pub type FlatModel = (Seq<i128>, Seq<bool>);

/// Decoding of a payload that holds one record of `layout` and padding.
pub open spec fn parse_flat(bits: Seq<bool>, layout: Seq<Field>) -> Result<FlatModel, DecodeError> {
    match record_values_at(bits, 0, layout) {
        None => Err(DecodeError::Incomplete),
        Some(v) => {
            let p = layout_width(layout) as int;
            let e = p + padding_len(bits.len() as int, p);
            if e != bits.len() {
                Err(DecodeError::TrailingData)
            } else {
                Ok((v, bits.subrange(p, e)))
            }
        },
    }
}

/// Whether a single-record message can be written as it stands.
pub open spec fn flat_wf(m: FlatModel, layout: Seq<Field>) -> bool {
    &&& values_fit(layout, m.0)
    &&& m.1.len() < 8
    &&& (layout_width(layout) + m.1.len()) % 8 == 0
}

/// Which error encoding an ill-formed single-record message reports.
pub open spec fn flat_error(m: FlatModel, layout: Seq<Field>) -> EncodeError {
    if !values_fit(layout, m.0) {
        EncodeError::ValueOutOfRange
    } else {
        EncodeError::BadPadding
    }
}

/// The bits of a single-record message.
pub open spec fn flat_bits(m: FlatModel, layout: Seq<Field>) -> Seq<bool> {
    write_fields(layout, m.0) + m.1
}

/// Decoding an encoded single-record message gives it back.
pub proof fn lemma_flat_round_trip(m: FlatModel, layout: Seq<Field>)
    requires
        layout_wf(layout),
        flat_wf(m, layout),
    ensures
        flat_bits(m, layout).len() % 8 == 0,
        parse_flat(flat_bits(m, layout), layout) == Ok::<FlatModel, DecodeError>(m),
{
    lemma_fields_round_trip(layout, m.0);
    lemma_record_round_trip(layout, m.0, Seq::empty(), m.1);
    let bits = flat_bits(m, layout);
    assert(bits =~= Seq::empty() + write_fields(layout, m.0) + m.1);
    let p = layout_width(layout) as int;
    assert(padding_len(bits.len() as int, p) == m.1.len());
    assert(bits.subrange(p, bits.len() as int) =~= m.1);
}

/// Decodes a payload that holds one record of type `R` and padding.
fn decode_flat<R: Record>(data: &[u8]) -> (r: Result<(R, Vec<bool>), DecodeError>)
    requires
        8 * data@.len() <= usize::MAX,
    ensures
        match r {
            Ok((rec, pad)) => parse_flat(bytes_to_bits(data@), R::spec_layout()) == Ok::<
                FlatModel,
                DecodeError,
            >((rec.values(), pad@)),
            Err(e) => parse_flat(bytes_to_bits(data@), R::spec_layout()) == Err::<
                FlatModel,
                DecodeError,
            >(e),
        },
{
    let (rec, p) = match read_one::<R>(data, 0) {
        Ok(x) => x,
        Err(e) => return Err(e),
    };
    let (pad, e) = read_padding(data, p);
    if e != 8 * data.len() {
        return Err(DecodeError::TrailingData);
    }
    Ok((rec, pad))
}

/// Encodes one record of type `R` followed by `pad`.
fn encode_flat<R: Record>(rec: &R, pad: &Vec<bool>) -> (r: Result<Vec<u8>, EncodeError>)
    ensures
        match r {
            Ok(b) => {
                &&& flat_wf((rec.values(), pad@), R::spec_layout())
                &&& bytes_to_bits(b@) == flat_bits((rec.values(), pad@), R::spec_layout())
            },
            Err(e) => {
                &&& !flat_wf((rec.values(), pad@), R::spec_layout())
                &&& e == flat_error((rec.values(), pad@), R::spec_layout())
            },
        },
{
    let mut out: Vec<bool> = Vec::new();
    match write_one(&mut out, rec) {
        Ok(()) => {},
        Err(e) => return Err(e),
    }
    proof {
        R::lemma_layout_wf();
        lemma_fields_round_trip(R::spec_layout(), rec.values());
    }
    push_bits(&mut out, pad);
    if pad.len() >= 8 || out.len() % 8 != 0 {
        return Err(EncodeError::BadPadding);
    }
    Ok(pack_bits(&out))
}

impl Rtcm1005 {
    /// The message as values.
    pub open spec fn model(&self) -> FlatModel {
        (self.values(), self.padding@)
    }

    /// Whether the message can be encoded as it stands.
    pub open spec fn wf(&self) -> bool {
        flat_wf(self.model(), Self::spec_layout())
    }

    /// Decodes a message 1005 payload (antenna reference point).
    pub fn decode(data: &[u8]) -> (r: Result<Self, DecodeError>)
        requires
            8 * data@.len() <= usize::MAX,
        ensures
            match r {
                Ok(m) => parse_flat(bytes_to_bits(data@), Self::spec_layout()) == Ok::<
                    FlatModel,
                    DecodeError,
                >(m.model()),
                Err(e) => parse_flat(bytes_to_bits(data@), Self::spec_layout()) == Err::<
                    FlatModel,
                    DecodeError,
                >(e),
            },
    {
        match decode_flat::<Rtcm1005>(data) {
            Ok((mut m, padding)) => {
                m.padding = padding;
                Ok(m)
            },
            Err(e) => Err(e),
        }
    }

    /// Encodes the message as a payload; fails exactly when it is not
    /// well formed, with the error that `flat_error` names.
    pub fn encode(&self) -> (r: Result<Vec<u8>, EncodeError>)
        ensures
            match r {
                Ok(b) => {
                    &&& self.wf()
                    &&& bytes_to_bits(b@) == flat_bits(self.model(), Self::spec_layout())
                },
                Err(e) => !self.wf() && e == flat_error(self.model(), Self::spec_layout()),
            },
    {
        encode_flat(self, &self.padding)
    }
}

impl Rtcm1006 {
    /// The message as values.
    pub open spec fn model(&self) -> FlatModel {
        (self.values(), self.padding@)
    }

    /// Whether the message can be encoded as it stands.
    pub open spec fn wf(&self) -> bool {
        flat_wf(self.model(), Self::spec_layout())
    }

    /// Decodes a message 1006 payload (antenna reference point with antenna height).
    pub fn decode(data: &[u8]) -> (r: Result<Self, DecodeError>)
        requires
            8 * data@.len() <= usize::MAX,
        ensures
            match r {
                Ok(m) => parse_flat(bytes_to_bits(data@), Self::spec_layout()) == Ok::<
                    FlatModel,
                    DecodeError,
                >(m.model()),
                Err(e) => parse_flat(bytes_to_bits(data@), Self::spec_layout()) == Err::<
                    FlatModel,
                    DecodeError,
                >(e),
            },
    {
        match decode_flat::<Rtcm1006>(data) {
            Ok((mut m, padding)) => {
                m.padding = padding;
                Ok(m)
            },
            Err(e) => Err(e),
        }
    }

    /// Encodes the message as a payload; fails exactly when it is not
    /// well formed, with the error that `flat_error` names.
    pub fn encode(&self) -> (r: Result<Vec<u8>, EncodeError>)
        ensures
            match r {
                Ok(b) => {
                    &&& self.wf()
                    &&& bytes_to_bits(b@) == flat_bits(self.model(), Self::spec_layout())
                },
                Err(e) => !self.wf() && e == flat_error(self.model(), Self::spec_layout()),
            },
    {
        encode_flat(self, &self.padding)
    }
}

impl Rtcm1019 {
    /// The message as values.
    pub open spec fn model(&self) -> FlatModel {
        (self.values(), self.padding@)
    }

    /// Whether the message can be encoded as it stands.
    pub open spec fn wf(&self) -> bool {
        flat_wf(self.model(), Self::spec_layout())
    }

    /// Decodes a message 1019 payload (GPS ephemeris).
    pub fn decode(data: &[u8]) -> (r: Result<Self, DecodeError>)
        requires
            8 * data@.len() <= usize::MAX,
        ensures
            match r {
                Ok(m) => parse_flat(bytes_to_bits(data@), Self::spec_layout()) == Ok::<
                    FlatModel,
                    DecodeError,
                >(m.model()),
                Err(e) => parse_flat(bytes_to_bits(data@), Self::spec_layout()) == Err::<
                    FlatModel,
                    DecodeError,
                >(e),
            },
    {
        match decode_flat::<Rtcm1019>(data) {
            Ok((mut m, padding)) => {
                m.padding = padding;
                Ok(m)
            },
            Err(e) => Err(e),
        }
    }

    /// Encodes the message as a payload; fails exactly when it is not
    /// well formed, with the error that `flat_error` names.
    pub fn encode(&self) -> (r: Result<Vec<u8>, EncodeError>)
        ensures
            match r {
                Ok(b) => {
                    &&& self.wf()
                    &&& bytes_to_bits(b@) == flat_bits(self.model(), Self::spec_layout())
                },
                Err(e) => !self.wf() && e == flat_error(self.model(), Self::spec_layout()),
            },
    {
        encode_flat(self, &self.padding)
    }
}

} // verus!

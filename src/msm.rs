//! The multiple-signal message MSM7 (1077, 1087, 1097): a header with a
//! satellite mask and a signal mask, a cell mask with one bit per pair of
//! selected satellite and signal, one satellite record per set satellite bit,
//! one signal record per set cell bit, and padding.

use crate::bits::bytes_to_bits;
use crate::error::{DecodeError, EncodeError};
use crate::fields::{layout_width, lemma_fields_round_trip, values_fit, write_fields};
use crate::record::{
    lemma_record_round_trip, lemma_records_round_trip, lemma_write_records_len, pack_bits,
    padding_len, push_bits, read_flags, read_many, read_one, read_padding, record_values_at,
    records_at, records_fit, values_of, write_many, write_one, write_records, Record,
};
use crate::records::{MsmHeader, RtcmMSM7Satellite, RtcmMSM7Signal};
use vstd::arithmetic::power2::*;
use vstd::prelude::*;

verus! {

/// Number of set bits of `v`.
pub open spec fn popcount(v: nat) -> nat
    decreases v,
{
    if v == 0 {
        0
    } else {
        v % 2 + popcount(v / 2)
    }
}

/// Number of `true` entries of `s`.
pub open spec fn count_true(s: Seq<bool>) -> nat
    decreases s.len(),
{
    if s.len() == 0 {
        0
    } else {
        count_true(s.drop_last()) + if s.last() {
            1nat
        } else {
            0nat
        }
    }
}

pub proof fn lemma_popcount_bound(v: nat, k: nat)
    requires
        v < pow2(k),
    ensures
        popcount(v) <= k,
    decreases k,
{
    if k == 0 {
        lemma2_to64();
    } else {
        lemma_pow2_unfold(k);
        if v > 0 {
            lemma_popcount_bound(v / 2, (k - 1) as nat);
        }
    }
}

/// Number of set bits of `v`.
pub fn count_ones(v: u64) -> (r: u32)
    ensures
        r == popcount(v as nat),
{
    let mut x = v;
    let mut c: u32 = 0;
    let mut k: u32 = 64;
    proof {
        lemma2_to64();
    }
    while x > 0
        invariant
            c + popcount(x as nat) == popcount(v as nat),
            x < pow2(k as nat),
            c + k <= 64,
        decreases x,
    {
        proof {
            lemma2_to64();
            assert(k > 0);
            lemma_pow2_unfold(k as nat);
        }
        c = c + (x % 2) as u32;
        x = x / 2;
        k = k - 1;
    }
    c
}

/// Number of `true` entries of `s`.
pub fn count_set(s: &Vec<bool>) -> (r: usize)
    ensures
        r == count_true(s@),
{
    let mut c: usize = 0;
    let mut i: usize = 0;
    proof {
        assert(s@.take(0) =~= Seq::<bool>::empty());
    }
    while i < s.len()
        invariant
            i <= s@.len(),
            c <= i,
            c == count_true(s@.take(i as int)),
        decreases s@.len() - i,
    {
        proof {
            assert(s@.take(i + 1).drop_last() =~= s@.take(i as int));
        }
        if s[i] {
            c = c + 1;
        }
        i = i + 1;
    }
    proof {
        assert(s@.take(i as int) =~= s@);
    }
    c
}

/// An MSM7 message as values: the header's fixed field values, the cell
/// mask, each satellite's and each signal's field values, and the padding.
pub type MsmModel = (Seq<i128>, Seq<bool>, Seq<Seq<i128>>, Seq<Seq<i128>>, Seq<bool>);

/// Positions of the satellite mask and of the signal mask among the
/// header's fixed fields.
pub open spec fn satellite_mask_index() -> int {
    10
}

pub open spec fn signal_mask_index() -> int {
    11
}

/// Number of satellites that header values `h` select.
pub open spec fn msm_satellites(h: Seq<i128>) -> nat {
    popcount(h[satellite_mask_index()] as nat)
}

/// Number of cells (satellite and signal pairs) that header values `h` select.
pub open spec fn msm_cells(h: Seq<i128>) -> nat {
    msm_satellites(h) * popcount(h[signal_mask_index()] as nat)
}

/// Decoding of an MSM7 payload.
pub open spec fn parse_msm(bits: Seq<bool>) -> Result<MsmModel, DecodeError> {
    match record_values_at(bits, 0, MsmHeader::spec_layout()) {
        None => Err(DecodeError::Incomplete),
        Some(h) => {
            let p = layout_width(MsmHeader::spec_layout()) as int;
            let cells_end = p + msm_cells(h);
            if cells_end > bits.len() {
                Err(DecodeError::Incomplete)
            } else {
                let cells = bits.subrange(p, cells_end);
                let nsat = msm_satellites(h);
                match records_at(bits, cells_end, RtcmMSM7Satellite::spec_layout(), nsat) {
                    None => Err(DecodeError::Incomplete),
                    Some(sats) => {
                        let sats_end = cells_end + nsat * layout_width(RtcmMSM7Satellite::spec_layout());
                        let nsig = count_true(cells);
                        match records_at(bits, sats_end, RtcmMSM7Signal::spec_layout(), nsig) {
                            None => Err(DecodeError::Incomplete),
                            Some(sigs) => {
                                let sigs_end = sats_end + nsig * layout_width(RtcmMSM7Signal::spec_layout());
                                let e = sigs_end + padding_len(bits.len() as int, sigs_end);
                                if e != bits.len() {
                                    Err(DecodeError::TrailingData)
                                } else {
                                    Ok((h, cells, sats, sigs, bits.subrange(sigs_end, e)))
                                }
                            },
                        }
                    },
                }
            }
        },
    }
}

/// Whether an MSM7 message can be written as it stands: every field fits,
/// the cell mask, satellite and signal counts match the masks, and the
/// padding completes the last byte.
pub open spec fn msm_wf(m: MsmModel) -> bool {
    &&& values_fit(MsmHeader::spec_layout(), m.0)
    &&& m.1.len() == msm_cells(m.0)
    &&& records_fit(RtcmMSM7Satellite::spec_layout(), m.2)
    &&& m.2.len() == msm_satellites(m.0)
    &&& records_fit(RtcmMSM7Signal::spec_layout(), m.3)
    &&& m.3.len() == count_true(m.1)
    &&& m.4.len() < 8
    &&& msm_bits(m).len() % 8 == 0
}

/// Which error encoding an ill-formed MSM7 message reports: the first of
/// header range, counts, record range and padding that fails.
pub open spec fn msm_error(m: MsmModel) -> EncodeError {
    if !values_fit(MsmHeader::spec_layout(), m.0) {
        EncodeError::ValueOutOfRange
    } else if m.1.len() != msm_cells(m.0) || m.2.len() != msm_satellites(m.0) || m.3.len()
        != count_true(m.1) {
        EncodeError::CountMismatch
    } else if !records_fit(RtcmMSM7Satellite::spec_layout(), m.2) || !records_fit(
        RtcmMSM7Signal::spec_layout(),
        m.3,
    ) {
        EncodeError::ValueOutOfRange
    } else {
        EncodeError::BadPadding
    }
}

/// The bits of an MSM7 message.
pub open spec fn msm_bits(m: MsmModel) -> Seq<bool> {
    write_fields(MsmHeader::spec_layout(), m.0) + m.1 + write_records(
        RtcmMSM7Satellite::spec_layout(),
        m.2,
    ) + write_records(RtcmMSM7Signal::spec_layout(), m.3) + m.4
}

/// Decoding an encoded MSM7 message gives it back.
pub proof fn lemma_msm_round_trip(m: MsmModel)
    requires
        msm_wf(m),
    ensures
        parse_msm(msm_bits(m)) == Ok::<MsmModel, DecodeError>(m),
{
    MsmHeader::lemma_layout_wf();
    RtcmMSM7Satellite::lemma_layout_wf();
    RtcmMSM7Signal::lemma_layout_wf();
    let hl = MsmHeader::spec_layout();
    let sl = RtcmMSM7Satellite::spec_layout();
    let gl = RtcmMSM7Signal::spec_layout();
    let hb = write_fields(hl, m.0);
    let sb = write_records(sl, m.2);
    let gb = write_records(gl, m.3);
    let bits = msm_bits(m);
    lemma_fields_round_trip(hl, m.0);
    lemma_write_records_len(sl, m.2);
    lemma_write_records_len(gl, m.3);
    assert(bits =~= Seq::empty() + hb + (m.1 + sb + gb + m.4));
    lemma_record_round_trip(hl, m.0, Seq::empty(), m.1 + sb + gb + m.4);
    assert(bits =~= (hb + m.1) + sb + (gb + m.4));
    lemma_records_round_trip(sl, m.2, hb + m.1, gb + m.4);
    assert(bits =~= (hb + m.1 + sb) + gb + m.4);
    lemma_records_round_trip(gl, m.3, hb + m.1 + sb, m.4);
    let p = hb.len() as int;
    assert(bits.subrange(p, p + m.1.len()) =~= m.1);
    let sigs_end = (hb.len() + m.1.len() + sb.len() + gb.len()) as int;
    assert(padding_len(bits.len() as int, sigs_end) == m.4.len());
    assert(bits.subrange(sigs_end, bits.len() as int) =~= m.4);
}

/// Message MSM7: full pseudoranges, phase ranges, phase-range rates and
/// carrier-to-noise ratios for the selected satellites and signals.
#[derive(Debug, PartialEq)]
pub struct RtcmMSM7 {
    pub header: MsmHeader,
    pub satellites: Vec<RtcmMSM7Satellite>,
    pub signals: Vec<RtcmMSM7Signal>,
    pub padding: Vec<bool>,
}

impl RtcmMSM7 {
    /// The message as values.
    pub open spec fn model(&self) -> MsmModel {
        (
            self.header.values(),
            self.header.cell_mask@,
            values_of(self.satellites@),
            values_of(self.signals@),
            self.padding@,
        )
    }

    /// Whether the message can be encoded as it stands.
    pub open spec fn wf(&self) -> bool {
        msm_wf(self.model())
    }

    /// Decodes an MSM7 payload. The cell mask has one bit for each pair of
    /// a satellite and a signal that the masks select, and there is one
    /// signal record for each set bit of the cell mask.
    pub fn decode(data: &[u8]) -> (r: Result<Self, DecodeError>)
        requires
            8 * data@.len() <= usize::MAX,
        ensures
            match r {
                Ok(m) => parse_msm(bytes_to_bits(data@)) == Ok::<MsmModel, DecodeError>(m.model()),
                Err(e) => parse_msm(bytes_to_bits(data@)) == Err::<MsmModel, DecodeError>(e),
            },
            r matches Ok(m) ==> {
                &&& m.header.cell_mask@.len() == popcount(m.header.gnss_satellite_mask as nat)
                    * popcount(m.header.gnss_signal_mask as nat)
                &&& m.satellites@.len() == popcount(m.header.gnss_satellite_mask as nat)
                &&& m.signals@.len() == count_true(m.header.cell_mask@)
            },
    {
        let (mut h, p) = match read_one::<MsmHeader>(data, 0) {
            Ok(x) => x,
            Err(e) => return Err(e),
        };
        let nsat = count_ones(h.gnss_satellite_mask) as usize;
        let nsig = count_ones(h.gnss_signal_mask as u64) as usize;
        proof {
            lemma2_to64();
            lemma_popcount_bound(h.gnss_satellite_mask as nat, 64);
            lemma_popcount_bound(h.gnss_signal_mask as nat, 32);
            assert(h.values()[satellite_mask_index()] == h.gnss_satellite_mask as i128);
            assert(h.values()[signal_mask_index()] == h.gnss_signal_mask as i128);
            assert(nsat * nsig <= 64 * 32) by (nonlinear_arith)
                requires
                    nsat <= 64,
                    nsig <= 32,
            ;
        }
        let (cells, cells_end) = match read_flags(data, p, nsat * nsig) {
            Ok(x) => x,
            Err(e) => return Err(e),
        };
        let (satellites, sats_end) = match read_many::<RtcmMSM7Satellite>(data, cells_end, nsat) {
            Ok(x) => x,
            Err(e) => return Err(e),
        };
        let ncell = count_set(&cells);
        let (signals, sigs_end) = match read_many::<RtcmMSM7Signal>(data, sats_end, ncell) {
            Ok(x) => x,
            Err(e) => return Err(e),
        };
        let (padding, e) = read_padding(data, sigs_end);
        if e != 8 * data.len() {
            return Err(DecodeError::TrailingData);
        }
        assert(values_of(satellites@).len() == satellites@.len());
        assert(values_of(signals@).len() == signals@.len());
        assert(cells@.len() == nsat * nsig);
        h.cell_mask = cells;
        Ok(RtcmMSM7 { header: h, satellites, signals, padding })
    }

    /// Encodes the message as a payload; fails exactly when it is not
    /// well formed, with the error that `msm_error` names.
    pub fn encode(&self) -> (r: Result<Vec<u8>, EncodeError>)
        ensures
            match r {
                Ok(b) => self.wf() && bytes_to_bits(b@) == msm_bits(self.model()),
                Err(e) => !self.wf() && e == msm_error(self.model()),
            },
    {
        let ghost m = self.model();
        let mut out: Vec<bool> = Vec::new();
        match write_one(&mut out, &self.header) {
            Ok(()) => {},
            Err(e) => return Err(e),
        }
        let h = &self.header;
        let nsat = count_ones(h.gnss_satellite_mask) as usize;
        let nsig = count_ones(h.gnss_signal_mask as u64) as usize;
        proof {
            lemma2_to64();
            lemma_popcount_bound(h.gnss_satellite_mask as nat, 64);
            lemma_popcount_bound(h.gnss_signal_mask as nat, 32);
            assert(h.values()[satellite_mask_index()] == h.gnss_satellite_mask as i128);
            assert(h.values()[signal_mask_index()] == h.gnss_signal_mask as i128);
            assert(nsat * nsig <= 64 * 32) by (nonlinear_arith)
                requires
                    nsat <= 64,
                    nsig <= 32,
            ;
        }
        if h.cell_mask.len() != nsat * nsig || self.satellites.len() != nsat || self.signals.len()
            != count_set(&h.cell_mask) {
            return Err(EncodeError::CountMismatch);
        }
        push_bits(&mut out, &h.cell_mask);
        match write_many(&mut out, &self.satellites) {
            Ok(()) => {},
            Err(e) => return Err(e),
        }
        match write_many(&mut out, &self.signals) {
            Ok(()) => {},
            Err(e) => return Err(e),
        }
        push_bits(&mut out, &self.padding);
        proof {
            assert(out@ =~= msm_bits(m));
        }
        if self.padding.len() >= 8 || out.len() % 8 != 0 {
            return Err(EncodeError::BadPadding);
        }
        Ok(pack_bits(&out))
    }
}

} // verus!

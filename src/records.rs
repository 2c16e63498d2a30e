//! The fixed-layout records of the supported messages: each struct with its
//! layout table, in wire order, most significant bit first.

use crate::fields::{sf, uf, Field};
use crate::record::Record;
use vstd::arithmetic::power2::{lemma2_to64, lemma2_to64_rest};
use vstd::prelude::*;

verus! {

/// Header of the GPS observation messages 1001 to 1004.
/// Its fields take 64 bits.
#[derive(Clone, Copy, Debug, PartialEq)]
pub struct RtcmHeader {
    pub message_number: u16,
    pub reference_station_id: u16,
    pub gps_epoch_time: u32,
    pub synchronous_gnss_flag: u8,
    pub num_gps_satellite_signals_processed: u8,
    pub gps_divergence_free_smoothing_indicator: u8,
    pub gps_smoothing_interval: u8,
}

impl Record for RtcmHeader {
    open spec fn spec_layout() -> Seq<Field> {
        seq![
            uf(12),
            uf(12),
            uf(30),
            uf(1),
            uf(5),
            uf(1),
            uf(3),
        ]
    }

    open spec fn values(&self) -> Seq<i128> {
        seq![
            self.message_number as i128,
            self.reference_station_id as i128,
            self.gps_epoch_time as i128,
            self.synchronous_gnss_flag as i128,
            self.num_gps_satellite_signals_processed as i128,
            self.gps_divergence_free_smoothing_indicator as i128,
            self.gps_smoothing_interval as i128,
        ]
    }

    proof fn lemma_layout_wf() {
    }

    fn layout() -> (r: Vec<Field>) {
        let r = vec![
            Field::unsigned(12),
            Field::unsigned(12),
            Field::unsigned(30),
            Field::unsigned(1),
            Field::unsigned(5),
            Field::unsigned(1),
            Field::unsigned(3),
        ];
        assert(r@ =~= Self::spec_layout());
        r
    }

    fn from_values(v: &Vec<i128>) -> (r: Self) {
        proof {
            lemma2_to64();
            lemma2_to64_rest();
            assert(Self::spec_layout()[0].fits(v@[0] as int));
            assert(Self::spec_layout()[1].fits(v@[1] as int));
            assert(Self::spec_layout()[2].fits(v@[2] as int));
            assert(Self::spec_layout()[3].fits(v@[3] as int));
            assert(Self::spec_layout()[4].fits(v@[4] as int));
            assert(Self::spec_layout()[5].fits(v@[5] as int));
            assert(Self::spec_layout()[6].fits(v@[6] as int));
        }
        let r = RtcmHeader {
            message_number: v[0] as u16,
            reference_station_id: v[1] as u16,
            gps_epoch_time: v[2] as u32,
            synchronous_gnss_flag: v[3] as u8,
            num_gps_satellite_signals_processed: v[4] as u8,
            gps_divergence_free_smoothing_indicator: v[5] as u8,
            gps_smoothing_interval: v[6] as u8,
        };
        assert(r.values() =~= v@);
        r
    }

    fn to_values(&self) -> (r: Vec<i128>) {
        let r: Vec<i128> = vec![
            self.message_number as i128,
            self.reference_station_id as i128,
            self.gps_epoch_time as i128,
            self.synchronous_gnss_flag as i128,
            self.num_gps_satellite_signals_processed as i128,
            self.gps_divergence_free_smoothing_indicator as i128,
            self.gps_smoothing_interval as i128,
        ];
        assert(r@ =~= self.values());
        r
    }
}

/// One satellite of message 1001: L1-only GPS RTK observables.
/// Its fields take 58 bits.
#[derive(Clone, Copy, Debug, PartialEq)]
pub struct Rtcm1001Satellite {
    pub gps_satellite_id: u8,
    pub gps_l1_code_indicator: u8,
    pub gps_l1_pseudorange: u32,
    pub gps_l1_phaserange_minus_pseudorange: i32,
    pub gps_l1_lock_time_indicator: u8,
}

impl Record for Rtcm1001Satellite {
    open spec fn spec_layout() -> Seq<Field> {
        seq![
            uf(6),
            uf(1),
            uf(24),
            sf(20),
            uf(7),
        ]
    }

    open spec fn values(&self) -> Seq<i128> {
        seq![
            self.gps_satellite_id as i128,
            self.gps_l1_code_indicator as i128,
            self.gps_l1_pseudorange as i128,
            self.gps_l1_phaserange_minus_pseudorange as i128,
            self.gps_l1_lock_time_indicator as i128,
        ]
    }

    proof fn lemma_layout_wf() {
    }

    fn layout() -> (r: Vec<Field>) {
        let r = vec![
            Field::unsigned(6),
            Field::unsigned(1),
            Field::unsigned(24),
            Field::signed(20),
            Field::unsigned(7),
        ];
        assert(r@ =~= Self::spec_layout());
        r
    }

    fn from_values(v: &Vec<i128>) -> (r: Self) {
        proof {
            lemma2_to64();
            lemma2_to64_rest();
            assert(Self::spec_layout()[0].fits(v@[0] as int));
            assert(Self::spec_layout()[1].fits(v@[1] as int));
            assert(Self::spec_layout()[2].fits(v@[2] as int));
            assert(Self::spec_layout()[3].fits(v@[3] as int));
            assert(Self::spec_layout()[4].fits(v@[4] as int));
        }
        let r = Rtcm1001Satellite {
            gps_satellite_id: v[0] as u8,
            gps_l1_code_indicator: v[1] as u8,
            gps_l1_pseudorange: v[2] as u32,
            gps_l1_phaserange_minus_pseudorange: v[3] as i32,
            gps_l1_lock_time_indicator: v[4] as u8,
        };
        assert(r.values() =~= v@);
        r
    }

    fn to_values(&self) -> (r: Vec<i128>) {
        let r: Vec<i128> = vec![
            self.gps_satellite_id as i128,
            self.gps_l1_code_indicator as i128,
            self.gps_l1_pseudorange as i128,
            self.gps_l1_phaserange_minus_pseudorange as i128,
            self.gps_l1_lock_time_indicator as i128,
        ];
        assert(r@ =~= self.values());
        r
    }
}

/// One satellite of message 1002: extended L1-only GPS RTK observables.
/// Its fields take 74 bits.
#[derive(Clone, Copy, Debug, PartialEq)]
pub struct Rtcm1002Satellite {
    pub gps_satellite_id: u8,
    pub gps_l1_code_indicator: u8,
    pub gps_l1_pseudorange: u32,
    pub gps_l1_phaserange_minus_pseudorange: i32,
    pub gps_l1_lock_time_indicator: u8,
    pub gps_integer_l1_pseudorange_modulus_ambiguity: u8,
    pub gps_l1_cnr: u8,
}

impl Record for Rtcm1002Satellite {
    open spec fn spec_layout() -> Seq<Field> {
        seq![
            uf(6),
            uf(1),
            uf(24),
            sf(20),
            uf(7),
            uf(8),
            uf(8),
        ]
    }

    open spec fn values(&self) -> Seq<i128> {
        seq![
            self.gps_satellite_id as i128,
            self.gps_l1_code_indicator as i128,
            self.gps_l1_pseudorange as i128,
            self.gps_l1_phaserange_minus_pseudorange as i128,
            self.gps_l1_lock_time_indicator as i128,
            self.gps_integer_l1_pseudorange_modulus_ambiguity as i128,
            self.gps_l1_cnr as i128,
        ]
    }

    proof fn lemma_layout_wf() {
    }

    fn layout() -> (r: Vec<Field>) {
        let r = vec![
            Field::unsigned(6),
            Field::unsigned(1),
            Field::unsigned(24),
            Field::signed(20),
            Field::unsigned(7),
            Field::unsigned(8),
            Field::unsigned(8),
        ];
        assert(r@ =~= Self::spec_layout());
        r
    }

    fn from_values(v: &Vec<i128>) -> (r: Self) {
        proof {
            lemma2_to64();
            lemma2_to64_rest();
            assert(Self::spec_layout()[0].fits(v@[0] as int));
            assert(Self::spec_layout()[1].fits(v@[1] as int));
            assert(Self::spec_layout()[2].fits(v@[2] as int));
            assert(Self::spec_layout()[3].fits(v@[3] as int));
            assert(Self::spec_layout()[4].fits(v@[4] as int));
            assert(Self::spec_layout()[5].fits(v@[5] as int));
            assert(Self::spec_layout()[6].fits(v@[6] as int));
        }
        let r = Rtcm1002Satellite {
            gps_satellite_id: v[0] as u8,
            gps_l1_code_indicator: v[1] as u8,
            gps_l1_pseudorange: v[2] as u32,
            gps_l1_phaserange_minus_pseudorange: v[3] as i32,
            gps_l1_lock_time_indicator: v[4] as u8,
            gps_integer_l1_pseudorange_modulus_ambiguity: v[5] as u8,
            gps_l1_cnr: v[6] as u8,
        };
        assert(r.values() =~= v@);
        r
    }

    fn to_values(&self) -> (r: Vec<i128>) {
        let r: Vec<i128> = vec![
            self.gps_satellite_id as i128,
            self.gps_l1_code_indicator as i128,
            self.gps_l1_pseudorange as i128,
            self.gps_l1_phaserange_minus_pseudorange as i128,
            self.gps_l1_lock_time_indicator as i128,
            self.gps_integer_l1_pseudorange_modulus_ambiguity as i128,
            self.gps_l1_cnr as i128,
        ];
        assert(r@ =~= self.values());
        r
    }
}

/// One satellite of message 1003: L1 and L2 GPS RTK observables.
/// Its fields take 101 bits.
#[derive(Clone, Copy, Debug, PartialEq)]
pub struct Rtcm1003Satellite {
    pub gps_satellite_id: u8,
    pub gps_l1_code_indicator: u8,
    pub gps_l1_pseudorange: u32,
    pub gps_l1_phaserange_minus_pseudorange: i32,
    pub gps_l1_lock_time_indicator: u8,
    pub gps_l2_code_indicator: u8,
    pub gps_l2_l1_pseudorange_difference: i16,
    pub gps_l2_phaserange_minus_pseudorange: i32,
    pub gps_l2_lock_time_indicator: u8,
}

impl Record for Rtcm1003Satellite {
    open spec fn spec_layout() -> Seq<Field> {
        seq![
            uf(6),
            uf(1),
            uf(24),
            sf(20),
            uf(7),
            uf(2),
            sf(14),
            sf(20),
            uf(7),
        ]
    }

    open spec fn values(&self) -> Seq<i128> {
        seq![
            self.gps_satellite_id as i128,
            self.gps_l1_code_indicator as i128,
            self.gps_l1_pseudorange as i128,
            self.gps_l1_phaserange_minus_pseudorange as i128,
            self.gps_l1_lock_time_indicator as i128,
            self.gps_l2_code_indicator as i128,
            self.gps_l2_l1_pseudorange_difference as i128,
            self.gps_l2_phaserange_minus_pseudorange as i128,
            self.gps_l2_lock_time_indicator as i128,
        ]
    }

    proof fn lemma_layout_wf() {
    }

    fn layout() -> (r: Vec<Field>) {
        let r = vec![
            Field::unsigned(6),
            Field::unsigned(1),
            Field::unsigned(24),
            Field::signed(20),
            Field::unsigned(7),
            Field::unsigned(2),
            Field::signed(14),
            Field::signed(20),
            Field::unsigned(7),
        ];
        assert(r@ =~= Self::spec_layout());
        r
    }

    fn from_values(v: &Vec<i128>) -> (r: Self) {
        proof {
            lemma2_to64();
            lemma2_to64_rest();
            assert(Self::spec_layout()[0].fits(v@[0] as int));
            assert(Self::spec_layout()[1].fits(v@[1] as int));
            assert(Self::spec_layout()[2].fits(v@[2] as int));
            assert(Self::spec_layout()[3].fits(v@[3] as int));
            assert(Self::spec_layout()[4].fits(v@[4] as int));
            assert(Self::spec_layout()[5].fits(v@[5] as int));
            assert(Self::spec_layout()[6].fits(v@[6] as int));
            assert(Self::spec_layout()[7].fits(v@[7] as int));
            assert(Self::spec_layout()[8].fits(v@[8] as int));
        }
        let r = Rtcm1003Satellite {
            gps_satellite_id: v[0] as u8,
            gps_l1_code_indicator: v[1] as u8,
            gps_l1_pseudorange: v[2] as u32,
            gps_l1_phaserange_minus_pseudorange: v[3] as i32,
            gps_l1_lock_time_indicator: v[4] as u8,
            gps_l2_code_indicator: v[5] as u8,
            gps_l2_l1_pseudorange_difference: v[6] as i16,
            gps_l2_phaserange_minus_pseudorange: v[7] as i32,
            gps_l2_lock_time_indicator: v[8] as u8,
        };
        assert(r.values() =~= v@);
        r
    }

    fn to_values(&self) -> (r: Vec<i128>) {
        let r: Vec<i128> = vec![
            self.gps_satellite_id as i128,
            self.gps_l1_code_indicator as i128,
            self.gps_l1_pseudorange as i128,
            self.gps_l1_phaserange_minus_pseudorange as i128,
            self.gps_l1_lock_time_indicator as i128,
            self.gps_l2_code_indicator as i128,
            self.gps_l2_l1_pseudorange_difference as i128,
            self.gps_l2_phaserange_minus_pseudorange as i128,
            self.gps_l2_lock_time_indicator as i128,
        ];
        assert(r@ =~= self.values());
        r
    }
}

/// One satellite of message 1004: extended L1 and L2 GPS RTK observables.
/// Its fields take 125 bits.
#[derive(Clone, Copy, Debug, PartialEq)]
pub struct Rtcm1004Satellite {
    pub gps_satellite_id: u8,
    pub gps_l1_code_indicator: u8,
    pub gps_l1_pseudorange: u32,
    pub gps_l1_phaserange_minus_pseudorange: i32,
    pub gps_l1_lock_time_indicator: u8,
    pub gps_integer_l1_pseudorange_modulus_ambiguity: u8,
    pub gps_l1_cnr: u8,
    pub gps_l2_code_indicator: u8,
    pub gps_l2_l1_pseudorange_difference: i16,
    pub gps_l2_phaserange_minus_pseudorange: i32,
    pub gps_l2_lock_time_indicator: u8,
    pub gps_l2_cnr: u8,
}

impl Record for Rtcm1004Satellite {
    open spec fn spec_layout() -> Seq<Field> {
        seq![
            uf(6),
            uf(1),
            uf(24),
            sf(20),
            uf(7),
            uf(8),
            uf(8),
            uf(2),
            sf(14),
            sf(20),
            uf(7),
            uf(8),
        ]
    }

    open spec fn values(&self) -> Seq<i128> {
        seq![
            self.gps_satellite_id as i128,
            self.gps_l1_code_indicator as i128,
            self.gps_l1_pseudorange as i128,
            self.gps_l1_phaserange_minus_pseudorange as i128,
            self.gps_l1_lock_time_indicator as i128,
            self.gps_integer_l1_pseudorange_modulus_ambiguity as i128,
            self.gps_l1_cnr as i128,
            self.gps_l2_code_indicator as i128,
            self.gps_l2_l1_pseudorange_difference as i128,
            self.gps_l2_phaserange_minus_pseudorange as i128,
            self.gps_l2_lock_time_indicator as i128,
            self.gps_l2_cnr as i128,
        ]
    }

    proof fn lemma_layout_wf() {
    }

    fn layout() -> (r: Vec<Field>) {
        let r = vec![
            Field::unsigned(6),
            Field::unsigned(1),
            Field::unsigned(24),
            Field::signed(20),
            Field::unsigned(7),
            Field::unsigned(8),
            Field::unsigned(8),
            Field::unsigned(2),
            Field::signed(14),
            Field::signed(20),
            Field::unsigned(7),
            Field::unsigned(8),
        ];
        assert(r@ =~= Self::spec_layout());
        r
    }

    fn from_values(v: &Vec<i128>) -> (r: Self) {
        proof {
            lemma2_to64();
            lemma2_to64_rest();
            assert(Self::spec_layout()[0].fits(v@[0] as int));
            assert(Self::spec_layout()[1].fits(v@[1] as int));
            assert(Self::spec_layout()[2].fits(v@[2] as int));
            assert(Self::spec_layout()[3].fits(v@[3] as int));
            assert(Self::spec_layout()[4].fits(v@[4] as int));
            assert(Self::spec_layout()[5].fits(v@[5] as int));
            assert(Self::spec_layout()[6].fits(v@[6] as int));
            assert(Self::spec_layout()[7].fits(v@[7] as int));
            assert(Self::spec_layout()[8].fits(v@[8] as int));
            assert(Self::spec_layout()[9].fits(v@[9] as int));
            assert(Self::spec_layout()[10].fits(v@[10] as int));
            assert(Self::spec_layout()[11].fits(v@[11] as int));
        }
        let r = Rtcm1004Satellite {
            gps_satellite_id: v[0] as u8,
            gps_l1_code_indicator: v[1] as u8,
            gps_l1_pseudorange: v[2] as u32,
            gps_l1_phaserange_minus_pseudorange: v[3] as i32,
            gps_l1_lock_time_indicator: v[4] as u8,
            gps_integer_l1_pseudorange_modulus_ambiguity: v[5] as u8,
            gps_l1_cnr: v[6] as u8,
            gps_l2_code_indicator: v[7] as u8,
            gps_l2_l1_pseudorange_difference: v[8] as i16,
            gps_l2_phaserange_minus_pseudorange: v[9] as i32,
            gps_l2_lock_time_indicator: v[10] as u8,
            gps_l2_cnr: v[11] as u8,
        };
        assert(r.values() =~= v@);
        r
    }

    fn to_values(&self) -> (r: Vec<i128>) {
        let r: Vec<i128> = vec![
            self.gps_satellite_id as i128,
            self.gps_l1_code_indicator as i128,
            self.gps_l1_pseudorange as i128,
            self.gps_l1_phaserange_minus_pseudorange as i128,
            self.gps_l1_lock_time_indicator as i128,
            self.gps_integer_l1_pseudorange_modulus_ambiguity as i128,
            self.gps_l1_cnr as i128,
            self.gps_l2_code_indicator as i128,
            self.gps_l2_l1_pseudorange_difference as i128,
            self.gps_l2_phaserange_minus_pseudorange as i128,
            self.gps_l2_lock_time_indicator as i128,
            self.gps_l2_cnr as i128,
        ];
        assert(r@ =~= self.values());
        r
    }
}

/// Message 1005: stationary antenna reference point.
/// Its fixed fields take 152 bits; `padding` holds the bits that
/// bring the payload to a whole number of bytes.
#[derive(Debug, PartialEq)]
pub struct Rtcm1005 {
    pub message_number: u16,
    pub reference_station_id: u16,
    pub itrf_realization_year: u8,
    pub gps_indicator: u8,
    pub glonass_indicator: u8,
    pub galileo_indicator: u8,
    pub reference_station_indicator: u8,
    pub antenna_reference_point_ecef_x: i64,
    pub single_receiver_oscillator_indicator: u8,
    pub reserved: u8,
    pub antenna_reference_point_ecef_y: i64,
    pub quarter_cycle_indicator: u8,
    pub antenna_reference_point_ecef_z: i64,
    pub padding: Vec<bool>,
}

impl Record for Rtcm1005 {
    open spec fn spec_layout() -> Seq<Field> {
        seq![
            uf(12),
            uf(12),
            uf(6),
            uf(1),
            uf(1),
            uf(1),
            uf(1),
            sf(38),
            uf(1),
            uf(1),
            sf(38),
            uf(2),
            sf(38),
        ]
    }

    open spec fn values(&self) -> Seq<i128> {
        seq![
            self.message_number as i128,
            self.reference_station_id as i128,
            self.itrf_realization_year as i128,
            self.gps_indicator as i128,
            self.glonass_indicator as i128,
            self.galileo_indicator as i128,
            self.reference_station_indicator as i128,
            self.antenna_reference_point_ecef_x as i128,
            self.single_receiver_oscillator_indicator as i128,
            self.reserved as i128,
            self.antenna_reference_point_ecef_y as i128,
            self.quarter_cycle_indicator as i128,
            self.antenna_reference_point_ecef_z as i128,
        ]
    }

    proof fn lemma_layout_wf() {
    }

    fn layout() -> (r: Vec<Field>) {
        let r = vec![
            Field::unsigned(12),
            Field::unsigned(12),
            Field::unsigned(6),
            Field::unsigned(1),
            Field::unsigned(1),
            Field::unsigned(1),
            Field::unsigned(1),
            Field::signed(38),
            Field::unsigned(1),
            Field::unsigned(1),
            Field::signed(38),
            Field::unsigned(2),
            Field::signed(38),
        ];
        assert(r@ =~= Self::spec_layout());
        r
    }

    fn from_values(v: &Vec<i128>) -> (r: Self) {
        proof {
            lemma2_to64();
            lemma2_to64_rest();
            assert(Self::spec_layout()[0].fits(v@[0] as int));
            assert(Self::spec_layout()[1].fits(v@[1] as int));
            assert(Self::spec_layout()[2].fits(v@[2] as int));
            assert(Self::spec_layout()[3].fits(v@[3] as int));
            assert(Self::spec_layout()[4].fits(v@[4] as int));
            assert(Self::spec_layout()[5].fits(v@[5] as int));
            assert(Self::spec_layout()[6].fits(v@[6] as int));
            assert(Self::spec_layout()[7].fits(v@[7] as int));
            assert(Self::spec_layout()[8].fits(v@[8] as int));
            assert(Self::spec_layout()[9].fits(v@[9] as int));
            assert(Self::spec_layout()[10].fits(v@[10] as int));
            assert(Self::spec_layout()[11].fits(v@[11] as int));
            assert(Self::spec_layout()[12].fits(v@[12] as int));
        }
        let r = Rtcm1005 {
            message_number: v[0] as u16,
            reference_station_id: v[1] as u16,
            itrf_realization_year: v[2] as u8,
            gps_indicator: v[3] as u8,
            glonass_indicator: v[4] as u8,
            galileo_indicator: v[5] as u8,
            reference_station_indicator: v[6] as u8,
            antenna_reference_point_ecef_x: v[7] as i64,
            single_receiver_oscillator_indicator: v[8] as u8,
            reserved: v[9] as u8,
            antenna_reference_point_ecef_y: v[10] as i64,
            quarter_cycle_indicator: v[11] as u8,
            antenna_reference_point_ecef_z: v[12] as i64,
            padding: Vec::new(),
        };
        assert(r.values() =~= v@);
        r
    }

    fn to_values(&self) -> (r: Vec<i128>) {
        let r: Vec<i128> = vec![
            self.message_number as i128,
            self.reference_station_id as i128,
            self.itrf_realization_year as i128,
            self.gps_indicator as i128,
            self.glonass_indicator as i128,
            self.galileo_indicator as i128,
            self.reference_station_indicator as i128,
            self.antenna_reference_point_ecef_x as i128,
            self.single_receiver_oscillator_indicator as i128,
            self.reserved as i128,
            self.antenna_reference_point_ecef_y as i128,
            self.quarter_cycle_indicator as i128,
            self.antenna_reference_point_ecef_z as i128,
        ];
        assert(r@ =~= self.values());
        r
    }
}

/// Message 1006: stationary antenna reference point with antenna height.
/// Its fixed fields take 168 bits; `padding` holds the bits that
/// bring the payload to a whole number of bytes.
#[derive(Debug, PartialEq)]
pub struct Rtcm1006 {
    pub message_number: u16,
    pub reference_station_id: u16,
    pub realization_year: u8,
    pub gps_indicator: u8,
    pub glonass_indicator: u8,
    pub galileo_indicator: u8,
    pub reference_station_indicator: u8,
    pub antenna_reference_point_ecef_x: i64,
    pub single_receiver_oscillator_indicator: u8,
    pub reserved: u8,
    pub antenna_reference_point_ecef_y: i64,
    pub quarter_cycle_indicator: u8,
    pub antenna_reference_point_ecef_z: i64,
    pub antenna_height: u16,
    pub padding: Vec<bool>,
}

impl Record for Rtcm1006 {
    open spec fn spec_layout() -> Seq<Field> {
        seq![
            uf(12),
            uf(12),
            uf(6),
            uf(1),
            uf(1),
            uf(1),
            uf(1),
            sf(38),
            uf(1),
            uf(1),
            sf(38),
            uf(2),
            sf(38),
            uf(16),
        ]
    }

    open spec fn values(&self) -> Seq<i128> {
        seq![
            self.message_number as i128,
            self.reference_station_id as i128,
            self.realization_year as i128,
            self.gps_indicator as i128,
            self.glonass_indicator as i128,
            self.galileo_indicator as i128,
            self.reference_station_indicator as i128,
            self.antenna_reference_point_ecef_x as i128,
            self.single_receiver_oscillator_indicator as i128,
            self.reserved as i128,
            self.antenna_reference_point_ecef_y as i128,
            self.quarter_cycle_indicator as i128,
            self.antenna_reference_point_ecef_z as i128,
            self.antenna_height as i128,
        ]
    }

    proof fn lemma_layout_wf() {
    }

    fn layout() -> (r: Vec<Field>) {
        let r = vec![
            Field::unsigned(12),
            Field::unsigned(12),
            Field::unsigned(6),
            Field::unsigned(1),
            Field::unsigned(1),
            Field::unsigned(1),
            Field::unsigned(1),
            Field::signed(38),
            Field::unsigned(1),
            Field::unsigned(1),
            Field::signed(38),
            Field::unsigned(2),
            Field::signed(38),
            Field::unsigned(16),
        ];
        assert(r@ =~= Self::spec_layout());
        r
    }

    fn from_values(v: &Vec<i128>) -> (r: Self) {
        proof {
            lemma2_to64();
            lemma2_to64_rest();
            assert(Self::spec_layout()[0].fits(v@[0] as int));
            assert(Self::spec_layout()[1].fits(v@[1] as int));
            assert(Self::spec_layout()[2].fits(v@[2] as int));
            assert(Self::spec_layout()[3].fits(v@[3] as int));
            assert(Self::spec_layout()[4].fits(v@[4] as int));
            assert(Self::spec_layout()[5].fits(v@[5] as int));
            assert(Self::spec_layout()[6].fits(v@[6] as int));
            assert(Self::spec_layout()[7].fits(v@[7] as int));
            assert(Self::spec_layout()[8].fits(v@[8] as int));
            assert(Self::spec_layout()[9].fits(v@[9] as int));
            assert(Self::spec_layout()[10].fits(v@[10] as int));
            assert(Self::spec_layout()[11].fits(v@[11] as int));
            assert(Self::spec_layout()[12].fits(v@[12] as int));
            assert(Self::spec_layout()[13].fits(v@[13] as int));
        }
        let r = Rtcm1006 {
            message_number: v[0] as u16,
            reference_station_id: v[1] as u16,
            realization_year: v[2] as u8,
            gps_indicator: v[3] as u8,
            glonass_indicator: v[4] as u8,
            galileo_indicator: v[5] as u8,
            reference_station_indicator: v[6] as u8,
            antenna_reference_point_ecef_x: v[7] as i64,
            single_receiver_oscillator_indicator: v[8] as u8,
            reserved: v[9] as u8,
            antenna_reference_point_ecef_y: v[10] as i64,
            quarter_cycle_indicator: v[11] as u8,
            antenna_reference_point_ecef_z: v[12] as i64,
            antenna_height: v[13] as u16,
            padding: Vec::new(),
        };
        assert(r.values() =~= v@);
        r
    }

    fn to_values(&self) -> (r: Vec<i128>) {
        let r: Vec<i128> = vec![
            self.message_number as i128,
            self.reference_station_id as i128,
            self.realization_year as i128,
            self.gps_indicator as i128,
            self.glonass_indicator as i128,
            self.galileo_indicator as i128,
            self.reference_station_indicator as i128,
            self.antenna_reference_point_ecef_x as i128,
            self.single_receiver_oscillator_indicator as i128,
            self.reserved as i128,
            self.antenna_reference_point_ecef_y as i128,
            self.quarter_cycle_indicator as i128,
            self.antenna_reference_point_ecef_z as i128,
            self.antenna_height as i128,
        ];
        assert(r@ =~= self.values());
        r
    }
}

/// Message 1019: GPS satellite ephemeris.
/// Its fixed fields take 488 bits; `padding` holds the bits that
/// bring the payload to a whole number of bytes.
#[derive(Debug, PartialEq)]
pub struct Rtcm1019 {
    pub message_number: u16,
    pub satellite_id: u8,
    pub week_number: u16,
    pub sv_accuracy: u8,
    pub code_on_l2: u8,
    pub idot: i16,
    pub iode: u8,
    pub t_oc: u16,
    pub a_f2: i8,
    pub a_f1: i16,
    pub a_f0: i32,
    pub iocd: u16,
    pub c_rs: i16,
    pub delta_n: i16,
    pub m0: i32,
    pub c_uc: i16,
    pub eccentricity: u32,
    pub c_us: i16,
    pub a_sqrt: u32,
    pub t_oe: u16,
    pub c_ic: i16,
    pub omega0: i32,
    pub c_is: i16,
    pub i0: i32,
    pub c_rc: i16,
    pub omega: i32,
    pub odmegadot: i32,
    pub t_gd: i8,
    pub sv_health: u8,
    pub l2_p_data_flag: bool,
    pub fit_interval: bool,
    pub padding: Vec<bool>,
}

impl Record for Rtcm1019 {
    open spec fn spec_layout() -> Seq<Field> {
        seq![
            uf(12),
            uf(6),
            uf(10),
            uf(4),
            uf(2),
            sf(14),
            uf(8),
            uf(16),
            sf(8),
            sf(16),
            sf(22),
            uf(10),
            sf(16),
            sf(16),
            sf(32),
            sf(16),
            uf(32),
            sf(16),
            uf(32),
            uf(16),
            sf(16),
            sf(32),
            sf(16),
            sf(32),
            sf(16),
            sf(32),
            sf(24),
            sf(8),
            uf(6),
            uf(1),
            uf(1),
        ]
    }

    open spec fn values(&self) -> Seq<i128> {
        seq![
            self.message_number as i128,
            self.satellite_id as i128,
            self.week_number as i128,
            self.sv_accuracy as i128,
            self.code_on_l2 as i128,
            self.idot as i128,
            self.iode as i128,
            self.t_oc as i128,
            self.a_f2 as i128,
            self.a_f1 as i128,
            self.a_f0 as i128,
            self.iocd as i128,
            self.c_rs as i128,
            self.delta_n as i128,
            self.m0 as i128,
            self.c_uc as i128,
            self.eccentricity as i128,
            self.c_us as i128,
            self.a_sqrt as i128,
            self.t_oe as i128,
            self.c_ic as i128,
            self.omega0 as i128,
            self.c_is as i128,
            self.i0 as i128,
            self.c_rc as i128,
            self.omega as i128,
            self.odmegadot as i128,
            self.t_gd as i128,
            self.sv_health as i128,
            if self.l2_p_data_flag {
                1i128
            } else {
                0i128
            },
            if self.fit_interval {
                1i128
            } else {
                0i128
            },
        ]
    }

    proof fn lemma_layout_wf() {
    }

    fn layout() -> (r: Vec<Field>) {
        let r = vec![
            Field::unsigned(12),
            Field::unsigned(6),
            Field::unsigned(10),
            Field::unsigned(4),
            Field::unsigned(2),
            Field::signed(14),
            Field::unsigned(8),
            Field::unsigned(16),
            Field::signed(8),
            Field::signed(16),
            Field::signed(22),
            Field::unsigned(10),
            Field::signed(16),
            Field::signed(16),
            Field::signed(32),
            Field::signed(16),
            Field::unsigned(32),
            Field::signed(16),
            Field::unsigned(32),
            Field::unsigned(16),
            Field::signed(16),
            Field::signed(32),
            Field::signed(16),
            Field::signed(32),
            Field::signed(16),
            Field::signed(32),
            Field::signed(24),
            Field::signed(8),
            Field::unsigned(6),
            Field::unsigned(1),
            Field::unsigned(1),
        ];
        assert(r@ =~= Self::spec_layout());
        r
    }

    fn from_values(v: &Vec<i128>) -> (r: Self) {
        proof {
            lemma2_to64();
            lemma2_to64_rest();
            assert(Self::spec_layout()[0].fits(v@[0] as int));
            assert(Self::spec_layout()[1].fits(v@[1] as int));
            assert(Self::spec_layout()[2].fits(v@[2] as int));
            assert(Self::spec_layout()[3].fits(v@[3] as int));
            assert(Self::spec_layout()[4].fits(v@[4] as int));
            assert(Self::spec_layout()[5].fits(v@[5] as int));
            assert(Self::spec_layout()[6].fits(v@[6] as int));
            assert(Self::spec_layout()[7].fits(v@[7] as int));
            assert(Self::spec_layout()[8].fits(v@[8] as int));
            assert(Self::spec_layout()[9].fits(v@[9] as int));
            assert(Self::spec_layout()[10].fits(v@[10] as int));
            assert(Self::spec_layout()[11].fits(v@[11] as int));
            assert(Self::spec_layout()[12].fits(v@[12] as int));
            assert(Self::spec_layout()[13].fits(v@[13] as int));
            assert(Self::spec_layout()[14].fits(v@[14] as int));
            assert(Self::spec_layout()[15].fits(v@[15] as int));
            assert(Self::spec_layout()[16].fits(v@[16] as int));
            assert(Self::spec_layout()[17].fits(v@[17] as int));
            assert(Self::spec_layout()[18].fits(v@[18] as int));
            assert(Self::spec_layout()[19].fits(v@[19] as int));
            assert(Self::spec_layout()[20].fits(v@[20] as int));
            assert(Self::spec_layout()[21].fits(v@[21] as int));
            assert(Self::spec_layout()[22].fits(v@[22] as int));
            assert(Self::spec_layout()[23].fits(v@[23] as int));
            assert(Self::spec_layout()[24].fits(v@[24] as int));
            assert(Self::spec_layout()[25].fits(v@[25] as int));
            assert(Self::spec_layout()[26].fits(v@[26] as int));
            assert(Self::spec_layout()[27].fits(v@[27] as int));
            assert(Self::spec_layout()[28].fits(v@[28] as int));
            assert(Self::spec_layout()[29].fits(v@[29] as int));
            assert(Self::spec_layout()[30].fits(v@[30] as int));
        }
        let r = Rtcm1019 {
            message_number: v[0] as u16,
            satellite_id: v[1] as u8,
            week_number: v[2] as u16,
            sv_accuracy: v[3] as u8,
            code_on_l2: v[4] as u8,
            idot: v[5] as i16,
            iode: v[6] as u8,
            t_oc: v[7] as u16,
            a_f2: v[8] as i8,
            a_f1: v[9] as i16,
            a_f0: v[10] as i32,
            iocd: v[11] as u16,
            c_rs: v[12] as i16,
            delta_n: v[13] as i16,
            m0: v[14] as i32,
            c_uc: v[15] as i16,
            eccentricity: v[16] as u32,
            c_us: v[17] as i16,
            a_sqrt: v[18] as u32,
            t_oe: v[19] as u16,
            c_ic: v[20] as i16,
            omega0: v[21] as i32,
            c_is: v[22] as i16,
            i0: v[23] as i32,
            c_rc: v[24] as i16,
            omega: v[25] as i32,
            odmegadot: v[26] as i32,
            t_gd: v[27] as i8,
            sv_health: v[28] as u8,
            l2_p_data_flag: v[29] == 1,
            fit_interval: v[30] == 1,
            padding: Vec::new(),
        };
        assert(r.values() =~= v@);
        r
    }

    fn to_values(&self) -> (r: Vec<i128>) {
        let r: Vec<i128> = vec![
            self.message_number as i128,
            self.satellite_id as i128,
            self.week_number as i128,
            self.sv_accuracy as i128,
            self.code_on_l2 as i128,
            self.idot as i128,
            self.iode as i128,
            self.t_oc as i128,
            self.a_f2 as i128,
            self.a_f1 as i128,
            self.a_f0 as i128,
            self.iocd as i128,
            self.c_rs as i128,
            self.delta_n as i128,
            self.m0 as i128,
            self.c_uc as i128,
            self.eccentricity as i128,
            self.c_us as i128,
            self.a_sqrt as i128,
            self.t_oe as i128,
            self.c_ic as i128,
            self.omega0 as i128,
            self.c_is as i128,
            self.i0 as i128,
            self.c_rc as i128,
            self.omega as i128,
            self.odmegadot as i128,
            self.t_gd as i128,
            self.sv_health as i128,
            if self.l2_p_data_flag {
                1
            } else {
                0
            },
            if self.fit_interval {
                1
            } else {
                0
            },
        ];
        assert(r@ =~= self.values());
        r
    }
}

/// Satellite data of a multiple-signal message (MSM7).
/// Its fields take 36 bits.
#[derive(Clone, Copy, Debug, PartialEq)]
pub struct RtcmMSM7Satellite {
    pub rough_range: u8,
    pub extented_satallite_info: u8,
    pub rough_ranges_modulo: u16,
    pub rough_phase_range_rates: i16,
}

impl Record for RtcmMSM7Satellite {
    open spec fn spec_layout() -> Seq<Field> {
        seq![
            uf(8),
            uf(4),
            uf(10),
            sf(14),
        ]
    }

    open spec fn values(&self) -> Seq<i128> {
        seq![
            self.rough_range as i128,
            self.extented_satallite_info as i128,
            self.rough_ranges_modulo as i128,
            self.rough_phase_range_rates as i128,
        ]
    }

    proof fn lemma_layout_wf() {
    }

    fn layout() -> (r: Vec<Field>) {
        let r = vec![
            Field::unsigned(8),
            Field::unsigned(4),
            Field::unsigned(10),
            Field::signed(14),
        ];
        assert(r@ =~= Self::spec_layout());
        r
    }

    fn from_values(v: &Vec<i128>) -> (r: Self) {
        proof {
            lemma2_to64();
            lemma2_to64_rest();
            assert(Self::spec_layout()[0].fits(v@[0] as int));
            assert(Self::spec_layout()[1].fits(v@[1] as int));
            assert(Self::spec_layout()[2].fits(v@[2] as int));
            assert(Self::spec_layout()[3].fits(v@[3] as int));
        }
        let r = RtcmMSM7Satellite {
            rough_range: v[0] as u8,
            extented_satallite_info: v[1] as u8,
            rough_ranges_modulo: v[2] as u16,
            rough_phase_range_rates: v[3] as i16,
        };
        assert(r.values() =~= v@);
        r
    }

    fn to_values(&self) -> (r: Vec<i128>) {
        let r: Vec<i128> = vec![
            self.rough_range as i128,
            self.extented_satallite_info as i128,
            self.rough_ranges_modulo as i128,
            self.rough_phase_range_rates as i128,
        ];
        assert(r@ =~= self.values());
        r
    }
}

/// Signal data of a multiple-signal message (MSM7), one per set cell.
/// Its fields take 80 bits.
#[derive(Clone, Copy, Debug, PartialEq)]
pub struct RtcmMSM7Signal {
    pub fine_pseudorange: i32,
    pub fine_phase_range: i32,
    pub phaserange_lock_indicator: u16,
    pub halfcycle_ambiguity_indicator: bool,
    pub cnr: u16,
    pub fine_phase_range_rate: i16,
}

impl Record for RtcmMSM7Signal {
    open spec fn spec_layout() -> Seq<Field> {
        seq![
            sf(20),
            sf(24),
            uf(10),
            uf(1),
            uf(10),
            sf(15),
        ]
    }

    open spec fn values(&self) -> Seq<i128> {
        seq![
            self.fine_pseudorange as i128,
            self.fine_phase_range as i128,
            self.phaserange_lock_indicator as i128,
            if self.halfcycle_ambiguity_indicator {
                1i128
            } else {
                0i128
            },
            self.cnr as i128,
            self.fine_phase_range_rate as i128,
        ]
    }

    proof fn lemma_layout_wf() {
    }

    fn layout() -> (r: Vec<Field>) {
        let r = vec![
            Field::signed(20),
            Field::signed(24),
            Field::unsigned(10),
            Field::unsigned(1),
            Field::unsigned(10),
            Field::signed(15),
        ];
        assert(r@ =~= Self::spec_layout());
        r
    }

    fn from_values(v: &Vec<i128>) -> (r: Self) {
        proof {
            lemma2_to64();
            lemma2_to64_rest();
            assert(Self::spec_layout()[0].fits(v@[0] as int));
            assert(Self::spec_layout()[1].fits(v@[1] as int));
            assert(Self::spec_layout()[2].fits(v@[2] as int));
            assert(Self::spec_layout()[3].fits(v@[3] as int));
            assert(Self::spec_layout()[4].fits(v@[4] as int));
            assert(Self::spec_layout()[5].fits(v@[5] as int));
        }
        let r = RtcmMSM7Signal {
            fine_pseudorange: v[0] as i32,
            fine_phase_range: v[1] as i32,
            phaserange_lock_indicator: v[2] as u16,
            halfcycle_ambiguity_indicator: v[3] == 1,
            cnr: v[4] as u16,
            fine_phase_range_rate: v[5] as i16,
        };
        assert(r.values() =~= v@);
        r
    }

    fn to_values(&self) -> (r: Vec<i128>) {
        let r: Vec<i128> = vec![
            self.fine_pseudorange as i128,
            self.fine_phase_range as i128,
            self.phaserange_lock_indicator as i128,
            if self.halfcycle_ambiguity_indicator {
                1
            } else {
                0
            },
            self.cnr as i128,
            self.fine_phase_range_rate as i128,
        ];
        assert(r@ =~= self.values());
        r
    }
}

/// Header of a multiple-signal message (MSM7).
/// Its fixed fields take 169 bits; `cell_mask` follows them, with one bit
/// for each pair of a satellite and a signal that the two masks select.
#[derive(Debug, PartialEq)]
pub struct MsmHeader {
    pub message_number: u16,
    pub reference_station_id: u16,
    pub gnss_epoch_time: u32,
    pub multiple_message_bit: u8,
    pub iods_issue_of_data_station: u8,
    pub reserved: u8,
    pub clock_steering_indicator: u8,
    pub external_clock_indicator: u8,
    pub gnss_divergence_free_smoothing_indicator: u8,
    pub gnss_smoothing_interval: u8,
    pub gnss_satellite_mask: u64,
    pub gnss_signal_mask: u32,
    pub cell_mask: Vec<bool>,
}

impl Record for MsmHeader {
    open spec fn spec_layout() -> Seq<Field> {
        seq![
            uf(12),
            uf(12),
            uf(30),
            uf(1),
            uf(3),
            uf(7),
            uf(2),
            uf(2),
            uf(1),
            uf(3),
            uf(64),
            uf(32),
        ]
    }

    open spec fn values(&self) -> Seq<i128> {
        seq![
            self.message_number as i128,
            self.reference_station_id as i128,
            self.gnss_epoch_time as i128,
            self.multiple_message_bit as i128,
            self.iods_issue_of_data_station as i128,
            self.reserved as i128,
            self.clock_steering_indicator as i128,
            self.external_clock_indicator as i128,
            self.gnss_divergence_free_smoothing_indicator as i128,
            self.gnss_smoothing_interval as i128,
            self.gnss_satellite_mask as i128,
            self.gnss_signal_mask as i128,
        ]
    }

    proof fn lemma_layout_wf() {
    }

    fn layout() -> (r: Vec<Field>) {
        let r = vec![
            Field::unsigned(12),
            Field::unsigned(12),
            Field::unsigned(30),
            Field::unsigned(1),
            Field::unsigned(3),
            Field::unsigned(7),
            Field::unsigned(2),
            Field::unsigned(2),
            Field::unsigned(1),
            Field::unsigned(3),
            Field::unsigned(64),
            Field::unsigned(32),
        ];
        assert(r@ =~= Self::spec_layout());
        r
    }

    fn from_values(v: &Vec<i128>) -> (r: Self) {
        proof {
            lemma2_to64();
            lemma2_to64_rest();
            assert(Self::spec_layout()[0].fits(v@[0] as int));
            assert(Self::spec_layout()[1].fits(v@[1] as int));
            assert(Self::spec_layout()[2].fits(v@[2] as int));
            assert(Self::spec_layout()[3].fits(v@[3] as int));
            assert(Self::spec_layout()[4].fits(v@[4] as int));
            assert(Self::spec_layout()[5].fits(v@[5] as int));
            assert(Self::spec_layout()[6].fits(v@[6] as int));
            assert(Self::spec_layout()[7].fits(v@[7] as int));
            assert(Self::spec_layout()[8].fits(v@[8] as int));
            assert(Self::spec_layout()[9].fits(v@[9] as int));
            assert(Self::spec_layout()[10].fits(v@[10] as int));
            assert(Self::spec_layout()[11].fits(v@[11] as int));
        }
        let r = MsmHeader {
            message_number: v[0] as u16,
            reference_station_id: v[1] as u16,
            gnss_epoch_time: v[2] as u32,
            multiple_message_bit: v[3] as u8,
            iods_issue_of_data_station: v[4] as u8,
            reserved: v[5] as u8,
            clock_steering_indicator: v[6] as u8,
            external_clock_indicator: v[7] as u8,
            gnss_divergence_free_smoothing_indicator: v[8] as u8,
            gnss_smoothing_interval: v[9] as u8,
            gnss_satellite_mask: v[10] as u64,
            gnss_signal_mask: v[11] as u32,
            cell_mask: Vec::new(),
        };
        assert(r.values() =~= v@);
        r
    }

    fn to_values(&self) -> (r: Vec<i128>) {
        let r: Vec<i128> = vec![
            self.message_number as i128,
            self.reference_station_id as i128,
            self.gnss_epoch_time as i128,
            self.multiple_message_bit as i128,
            self.iods_issue_of_data_station as i128,
            self.reserved as i128,
            self.clock_steering_indicator as i128,
            self.external_clock_indicator as i128,
            self.gnss_divergence_free_smoothing_indicator as i128,
            self.gnss_smoothing_interval as i128,
            self.gnss_satellite_mask as i128,
            self.gnss_signal_mask as i128,
        ];
        assert(r@ =~= self.values());
        r
    }
}

} // verus!

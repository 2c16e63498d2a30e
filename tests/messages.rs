use rtcm_parser::rtcm_parser::{
    DecodeError, EncodeError, MsmHeader, Rtcm, Rtcm1001, Rtcm1001Satellite, Rtcm1004,
    Rtcm1004Satellite, Rtcm1005, Rtcm1019, RtcmHeader, RtcmMSM7, RtcmMSM7Satellite, RtcmMSM7Signal,
};

const STATION_PAYLOAD: [u8; 19] = [
    0x3E, 0xD7, 0xD3, 0x02, 0x02, 0x98, 0x0E, 0xDE, 0xEF, 0x34, 0xB4, 0xBD, 0x62, 0xAC, 0x09, 0x41,
    0x98, 0x6F, 0x33,
];

const OBS_1001: [u8; 23] = [
    0x3E, 0x9F, 0xFF, 0x1D, 0x6F, 0x34, 0x56, 0x25, 0x14, 0x25, 0xAD, 0x0F, 0xFF, 0x83, 0x19, 0x1F,
    0xFF, 0xFF, 0xFF, 0xBF, 0xFF, 0xFF, 0xFA,
];

const OBS_1001_SHORT: [u8; 23] = [
    0x3E, 0x9F, 0xFF, 0x1D, 0x6F, 0x34, 0x56, 0x35, 0x14, 0x25, 0xAD, 0x0F, 0xFF, 0x83, 0x19, 0x1F,
    0xFF, 0xFF, 0xFF, 0xBF, 0xFF, 0xFF, 0xF0,
];

const OBS_1004: [u8; 24] = [
    0x3E, 0xCF, 0xFF, 0x1D, 0x6F, 0x34, 0x56, 0x15, 0x32, 0x98, 0x96, 0x81, 0x00, 0x00, 0x00, 0xF2,
    0x0B, 0x78, 0x00, 0x00, 0xC0, 0xE6, 0x01, 0x08,
];

const MSM7: [u8; 61] = [
    0x43, 0x50, 0x01, 0x00, 0x00, 0x22, 0xB8, 0x80, 0x36, 0x50, 0x00, 0x00, 0x00, 0x00, 0x00, 0x00,
    0x00, 0x60, 0x00, 0x00, 0x00, 0x5A, 0x67, 0xFD, 0x1F, 0xFD, 0xA8, 0x00, 0x06, 0xFF, 0xFF, 0xFF,
    0xCE, 0x00, 0x00, 0x64, 0x3E, 0x9A, 0x03, 0xFF, 0xEB, 0xFF, 0xFF, 0xC0, 0x00, 0x00, 0x00, 0x20,
    0x01, 0xFF, 0xF8, 0x00, 0x00, 0x00, 0x00, 0x00, 0xFF, 0xFF, 0xFE, 0x00, 0x00,
];

const EPHEMERIS: [u8; 61] = [
    0x3F, 0xB4, 0x7E, 0x82, 0x7B, 0x2E, 0x4D, 0x9C, 0x40, 0xFD, 0xFE, 0xD4, 0x85, 0xEE, 0x01, 0xF4,
    0x80, 0x00, 0x7F, 0xFF, 0x80, 0x00, 0x00, 0x00, 0x00, 0x0C, 0xFF, 0xFF, 0xFF, 0xFF, 0xFF, 0xF4,
    0x7F, 0xFF, 0xFF, 0xFF, 0x00, 0x07, 0xFF, 0xF9, 0x07, 0x5B, 0xCD, 0x15, 0x00, 0x01, 0xF8, 0xA4,
    0x32, 0xEB, 0xFF, 0xFF, 0x3A, 0xDE, 0x68, 0xB1, 0x80, 0x00, 0x00, 0x7F, 0xFE,
];

fn station() -> Rtcm1005 {
    Rtcm1005 {
        message_number: 1005,
        reference_station_id: 2003,
        itrf_realization_year: 0,
        gps_indicator: 1,
        glonass_indicator: 0,
        galileo_indicator: 0,
        reference_station_indicator: 0,
        antenna_reference_point_ecef_x: 11141045999,
        single_receiver_oscillator_indicator: 0,
        reserved: 0,
        antenna_reference_point_ecef_y: -48507297108,
        quarter_cycle_indicator: 0,
        antenna_reference_point_ecef_z: 39755214643,
        padding: vec![],
    }
}

fn observation_1001() -> Rtcm1001 {
    Rtcm1001 {
        header: RtcmHeader {
            message_number: 1001,
            reference_station_id: 4095,
            gps_epoch_time: 123456789,
            synchronous_gnss_flag: 1,
            num_gps_satellite_signals_processed: 2,
            gps_divergence_free_smoothing_indicator: 0,
            gps_smoothing_interval: 5,
        },
        satellites: vec![
            Rtcm1001Satellite {
                gps_satellite_id: 5,
                gps_l1_code_indicator: 0,
                gps_l1_pseudorange: 1234567,
                gps_l1_phaserange_minus_pseudorange: -1000,
                gps_l1_lock_time_indicator: 100,
            },
            Rtcm1001Satellite {
                gps_satellite_id: 31,
                gps_l1_code_indicator: 1,
                gps_l1_pseudorange: 16777215,
                gps_l1_phaserange_minus_pseudorange: 524287,
                gps_l1_lock_time_indicator: 127,
            },
        ],
        padding: vec![true, false, true, false],
    }
}

fn msm7() -> RtcmMSM7 {
    RtcmMSM7 {
        header: MsmHeader {
            message_number: 1077,
            reference_station_id: 1,
            gnss_epoch_time: 2222,
            multiple_message_bit: 0,
            iods_issue_of_data_station: 2,
            reserved: 0,
            clock_steering_indicator: 1,
            external_clock_indicator: 2,
            gnss_divergence_free_smoothing_indicator: 1,
            gnss_smoothing_interval: 4,
            gnss_satellite_mask: (1u64 << 63) | (1u64 << 61),
            gnss_signal_mask: (1u32 << 31) | (1u32 << 30),
            cell_mask: vec![true, false, true, true],
        },
        satellites: vec![
            RtcmMSM7Satellite {
                rough_range: 76,
                extented_satallite_info: 15,
                rough_ranges_modulo: 1000,
                rough_phase_range_rates: -5,
            },
            RtcmMSM7Satellite {
                rough_range: 80,
                extented_satallite_info: 0,
                rough_ranges_modulo: 3,
                rough_phase_range_rates: 8191,
            },
        ],
        signals: vec![
            RtcmMSM7Signal {
                fine_pseudorange: -100,
                fine_phase_range: 200,
                phaserange_lock_indicator: 500,
                halfcycle_ambiguity_indicator: true,
                cnr: 640,
                fine_phase_range_rate: -3,
            },
            RtcmMSM7Signal {
                fine_pseudorange: 524287,
                fine_phase_range: -8388608,
                phaserange_lock_indicator: 1,
                halfcycle_ambiguity_indicator: false,
                cnr: 0,
                fine_phase_range_rate: 16383,
            },
            RtcmMSM7Signal {
                fine_pseudorange: 0,
                fine_phase_range: 1,
                phaserange_lock_indicator: 1023,
                halfcycle_ambiguity_indicator: true,
                cnr: 1023,
                fine_phase_range_rate: -16384,
            },
        ],
        padding: vec![false, false, false],
    }
}

#[test]
fn published_station_payload_decodes() {
    assert_eq!(Rtcm1005::decode(&STATION_PAYLOAD), Ok(station()));
    assert_eq!(Rtcm::parse(&STATION_PAYLOAD), Ok(Rtcm::Rtcm1005(station())));
}

#[test]
fn station_round_trip() {
    let bytes = station().encode().unwrap();
    assert_eq!(bytes, STATION_PAYLOAD.to_vec());
    assert_eq!(Rtcm1005::decode(&bytes), Ok(station()));
}

#[test]
fn observation_decodes_signed_fields_and_padding() {
    let m = Rtcm1001::decode(&OBS_1001).unwrap();
    assert_eq!(m, observation_1001());
    assert_eq!(m.satellites[0].gps_l1_phaserange_minus_pseudorange, -1000);
    assert_eq!(m.padding.len(), 4);
    assert_eq!(Rtcm::parse(&OBS_1001), Ok(Rtcm::Rtcm1001(observation_1001())));
}

#[test]
fn observation_round_trip() {
    let bytes = observation_1001().encode().unwrap();
    assert_eq!(bytes, OBS_1001.to_vec());
    assert_eq!(Rtcm1001::decode(&bytes), Ok(observation_1001()));
}

#[test]
fn satellite_count_beyond_the_payload_is_incomplete() {
    assert_eq!(Rtcm1001::decode(&OBS_1001_SHORT), Err(DecodeError::Incomplete));
    assert_eq!(Rtcm::parse(&OBS_1001_SHORT), Err(DecodeError::Incomplete));
}

#[test]
fn extended_dual_frequency_observation() {
    let m = Rtcm1004::decode(&OBS_1004).unwrap();
    assert_eq!(m.header.num_gps_satellite_signals_processed, 1);
    assert_eq!(
        m.satellites,
        vec![Rtcm1004Satellite {
            gps_satellite_id: 12,
            gps_l1_code_indicator: 1,
            gps_l1_pseudorange: 5000000,
            gps_l1_phaserange_minus_pseudorange: -524288,
            gps_l1_lock_time_indicator: 3,
            gps_integer_l1_pseudorange_modulus_ambiguity: 200,
            gps_l1_cnr: 45,
            gps_l2_code_indicator: 3,
            gps_l2_l1_pseudorange_difference: -8192,
            gps_l2_phaserange_minus_pseudorange: 12345,
            gps_l2_lock_time_indicator: 64,
            gps_l2_cnr: 33,
        }]
    );
    assert_eq!(m.padding, vec![false, false, false]);
    assert_eq!(m.encode().unwrap(), OBS_1004.to_vec());
}

#[test]
fn msm7_counts_follow_the_masks() {
    let m = RtcmMSM7::decode(&MSM7).unwrap();
    assert_eq!(m.header.cell_mask.len(), 2 * 2);
    assert_eq!(m.satellites.len(), 2);
    assert_eq!(m.signals.len(), 3);
    assert_eq!(m, msm7());
    assert_eq!(Rtcm::parse(&MSM7), Ok(Rtcm::RtcmMSM7(msm7())));
}

#[test]
fn msm7_round_trip() {
    let bytes = msm7().encode().unwrap();
    assert_eq!(bytes, MSM7.to_vec());
    assert_eq!(RtcmMSM7::decode(&bytes), Ok(msm7()));
}

#[test]
fn msm7_other_constellations_dispatch() {
    let mut m = msm7();
    m.header.message_number = 1087;
    let bytes = m.encode().unwrap();
    assert!(matches!(Rtcm::parse(&bytes), Ok(Rtcm::RtcmMSM7(d)) if d.header.message_number == 1087));
    m.header.message_number = 1097;
    let bytes = m.encode().unwrap();
    assert!(matches!(Rtcm::parse(&bytes), Ok(Rtcm::RtcmMSM7(d)) if d.header.message_number == 1097));
}

#[test]
fn ephemeris_round_trip() {
    let m = Rtcm1019::decode(&EPHEMERIS).unwrap();
    assert_eq!(m.message_number, 1019);
    assert_eq!(m.satellite_id, 17);
    assert_eq!(m.idot, -1234);
    assert_eq!(m.a_f2, -3);
    assert_eq!(m.a_f0, -2000000);
    assert_eq!(m.c_rs, -32768);
    assert_eq!(m.m0, -2147483648);
    assert_eq!(m.eccentricity, 4294967295);
    assert_eq!(m.odmegadot, -8388608);
    assert_eq!(m.t_gd, 127);
    assert_eq!(m.sv_health, 63);
    assert!(m.l2_p_data_flag);
    assert!(!m.fit_interval);
    assert!(m.padding.is_empty());
    assert_eq!(m.encode().unwrap(), EPHEMERIS.to_vec());
    assert!(matches!(Rtcm::parse(&EPHEMERIS), Ok(Rtcm::Rtcm1019(_))));
}

#[test]
fn unsupported_type_is_not_an_error() {
    assert_eq!(Rtcm::parse(&[0x3F, 0x20, 0x00]), Ok(Rtcm::UnsupportedType(1010)));
    assert_eq!(Rtcm::parse(&[0xFF, 0xF0]), Ok(Rtcm::UnsupportedType(4095)));
}

#[test]
fn too_short_payloads_fail() {
    assert_eq!(Rtcm::parse(&[]), Err(DecodeError::Incomplete));
    assert_eq!(Rtcm::parse(&[0x3E]), Err(DecodeError::Incomplete));
    assert_eq!(Rtcm::parse(&STATION_PAYLOAD[..18]), Err(DecodeError::Incomplete));
    assert_eq!(Rtcm1005::decode(&[]), Err(DecodeError::Incomplete));
    assert_eq!(RtcmMSM7::decode(&MSM7[..30]), Err(DecodeError::Incomplete));
}

#[test]
fn trailing_bytes_fail() {
    let mut longer = STATION_PAYLOAD.to_vec();
    longer.push(0);
    assert_eq!(Rtcm1005::decode(&longer), Err(DecodeError::TrailingData));
    assert_eq!(Rtcm::parse(&longer), Err(DecodeError::TrailingData));
}

#[test]
fn encode_rejects_values_out_of_range() {
    let mut m = station();
    m.reference_station_id = 4096;
    assert_eq!(m.encode(), Err(EncodeError::ValueOutOfRange));
    let mut m = station();
    m.antenna_reference_point_ecef_x = 1 << 37;
    assert_eq!(m.encode(), Err(EncodeError::ValueOutOfRange));
    m.antenna_reference_point_ecef_x = -(1 << 37);
    assert!(m.encode().is_ok());
}

#[test]
fn encode_rejects_count_mismatch() {
    let mut m = observation_1001();
    m.header.num_gps_satellite_signals_processed = 3;
    assert_eq!(m.encode(), Err(EncodeError::CountMismatch));
    let mut m = msm7();
    m.header.cell_mask.push(true);
    assert_eq!(m.encode(), Err(EncodeError::CountMismatch));
}

#[test]
fn encode_rejects_bad_padding() {
    let mut m = observation_1001();
    m.padding.pop();
    assert_eq!(m.encode(), Err(EncodeError::BadPadding));
    let mut m = station();
    m.padding = vec![false; 8];
    assert_eq!(m.encode(), Err(EncodeError::BadPadding));
}

#[test]
fn rtcm_encode_round_trips_through_parse() {
    let messages = vec![
        Rtcm::Rtcm1001(observation_1001()),
        Rtcm::Rtcm1005(station()),
        Rtcm::RtcmMSM7(msm7()),
        Rtcm::Rtcm1019(Rtcm1019::decode(&EPHEMERIS).unwrap()),
        Rtcm::Rtcm1004(Rtcm1004::decode(&OBS_1004).unwrap()),
    ];
    for m in messages {
        let bytes = m.encode().unwrap();
        assert_eq!(Rtcm::parse(&bytes), Ok(m));
    }
}

#[test]
fn rtcm_encode_checks_the_message_number() {
    let mut m = station();
    m.message_number = 1006;
    assert_eq!(Rtcm::Rtcm1005(m).encode(), Err(EncodeError::WrongMessageNumber));
    let mut m = msm7();
    m.header.message_number = 1074;
    assert_eq!(Rtcm::RtcmMSM7(m).encode(), Err(EncodeError::WrongMessageNumber));
    assert_eq!(Rtcm::UnsupportedType(1010).encode(), Err(EncodeError::UnsupportedType));
}

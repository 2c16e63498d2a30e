//! Decoding of RTCM 3 GNSS correction streams: frame extraction with
//! CRC-24Q validation, and a bit-level codec for the supported messages.

pub mod bits;
pub mod crc;
pub mod error;
pub mod fields;
pub mod flat;
pub mod framing;
pub mod msm;
pub mod observation;
pub mod record;
pub mod records;
pub mod rtcm;
pub mod rtcm_parser;
pub mod stream;

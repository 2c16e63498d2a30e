//! The extractor, the message types and their errors under one path.

pub use crate::error::{DecodeError, EncodeError};
pub use crate::framing::{build_frame, RtcmParser};
pub use crate::msm::RtcmMSM7;
pub use crate::observation::{Rtcm1001, Rtcm1002, Rtcm1003, Rtcm1004};
pub use crate::records::{
    MsmHeader, Rtcm1001Satellite, Rtcm1002Satellite, Rtcm1003Satellite, Rtcm1004Satellite, Rtcm1005,
    Rtcm1006, Rtcm1019, RtcmHeader, RtcmMSM7Satellite, RtcmMSM7Signal,
};
pub use crate::rtcm::Rtcm;

//! The REST data shapes the server reports and accepts (devices, health,
//! audio, sessions, signaling), as plain values.

use vstd::prelude::*;
use std::collections::BTreeMap;

verus! {

/// Version of the REST / beacon protocol.
pub const PROTOCOL_VERSION: u32 = 1;

/// The ports a server listens on.
#[derive(Clone, Copy, Debug, PartialEq, Eq, Structural)]
pub struct Ports {
    pub c2: u16,
    pub audio_out: u16,
    pub audio_in: u16,
    /// Beast binary Mode S feed (ADS-B). 0 when disabled.
    pub beast: u16,
    /// AIVDM (NMEA 0183) marine AIS feed. 0 when disabled.
    pub ais_nmea: u16,
}

/// The device a server has open.
#[derive(Clone, Debug)]
pub struct SelectedDeviceSummary {
    pub id: String,
    pub driver: String,
    pub label: String,
    pub tx_capable: bool,
}

/// One device-specific setting and what it accepts.
#[derive(Clone, Debug)]
pub struct SettingInfo {
    pub key: String,
    pub name: String,
    pub type_: String,
    pub default: String,
    pub description: String,
    pub options: Option<Vec<String>>,
}

/// What state a device is in.
#[derive(Clone, Copy, Debug, PartialEq, Eq, Structural)]
pub enum DeviceStatus {
    Ready,
    Busy,
    Error,
    Absent,
}

/// One attached device, as listed.
#[derive(Clone, Debug)]
pub struct DeviceSummary {
    pub id: String,
    pub driver: String,
    pub label: String,
    pub serial: String,
    pub soapy_args: String,
    pub tx_capable: bool,
    pub available: bool,
}

/// Health of the open device.
#[derive(Clone, Debug)]
pub struct DeviceHealth {
    pub present: bool,
    pub status: DeviceStatus,
    pub last_error: Option<String>,
    pub samples_read: u64,
    pub overruns: u64,
    pub sensors: BTreeMap<String, String>,
}

impl DeviceHealth {
    /// The health reported when no device is open.
    pub fn absent() -> (h: Self)
        ensures
            !h.present,
            h.status == DeviceStatus::Absent,
            h.last_error is None,
            h.samples_read == 0,
            h.overruns == 0,
            h.sensors@ == Map::<String, String>::empty(),
    {
        DeviceHealth {
            present: false,
            status: DeviceStatus::Absent,
            last_error: None,
            samples_read: 0,
            overruns: 0,
            sensors: BTreeMap::new(),
        }
    }
}

/// `PUT /api/v1/device` body: exactly one of the fields.
#[derive(Clone, Debug)]
pub struct DeviceSelector {
    pub id: Option<String>,
    pub soapy_args: Option<String>,
}

/// How the tuner gain is set.
#[derive(Clone, Copy, Debug, PartialEq, Eq, Structural)]
pub enum GainMode {
    Manual,
    Agc,
}

/// The encoded audio stream's format.
#[derive(Clone, Copy, Debug, PartialEq, Eq, Structural)]
pub struct AudioConfig {
    pub sample_rate_hz: u32,
    pub channels: u8,
    pub opus_bitrate_bps: u32,
    pub frame_ms: u32,
}

impl Default for AudioConfig {
    /// 48 kHz mono Opus at 24 kb/s in 20 ms frames.
    fn default() -> (c: Self)
        ensures
            c == (AudioConfig {
                sample_rate_hz: 48_000,
                channels: 1,
                opus_bitrate_bps: 24_000,
                frame_ms: 20,
            }),
    {
        AudioConfig { sample_rate_hz: 48_000, channels: 1, opus_bitrate_bps: 24_000, frame_ms: 20 }
    }
}

/// How the audio pipeline cuts and encodes: frame length, samples per
/// frame at 48 kHz, and the Opus bitrate as the encoder takes it.
#[derive(Clone, Copy, Debug, PartialEq, Eq, Structural)]
pub struct AudioFraming {
    pub frame_ms: u32,
    pub frame_samples: usize,
    pub bitrate_bps: i32,
}

/// The frame length a config asks for, held within 10..=60 ms.
pub open spec fn clamped_frame_ms(ms: u32) -> u32 {
    if ms < 10 {
        10
    } else if ms > 60 {
        60
    } else {
        ms
    }
}

impl AudioConfig {
    /// The framing of the audio pipeline: the frame length held within
    /// 10..=60 ms, 48 samples per millisecond, and the bitrate as a signed
    /// 32-bit value (the two's-complement reading of the configured one).
    pub fn framing(&self) -> (f: AudioFraming)
        ensures
            f.frame_ms == clamped_frame_ms(self.frame_ms),
            f.frame_samples == 48 * clamped_frame_ms(self.frame_ms),
            f.bitrate_bps == self.opus_bitrate_bps as i32,
    {
        let ms: u32 = if self.frame_ms < 10 {
            10
        } else if self.frame_ms > 60 {
            60
        } else {
            self.frame_ms
        };
        AudioFraming {
            frame_ms: ms,
            frame_samples: 48 * (ms as usize),
            bitrate_bps: #[verifier::truncate] (self.opus_bitrate_bps as i32),
        }
    }
}

/// Channel-scan state. While `active`, `frequency_hz` is the live tuned
/// frequency.
#[derive(Clone, Debug)]
pub struct ScanStatus {
    pub active: bool,
    pub parked: bool,
    pub frequency_hz: Option<u64>,
    pub label: Option<String>,
    pub index: usize,
    pub total: usize,
}

impl Default for ScanStatus {
    /// Not scanning.
    fn default() -> (s: Self)
        ensures
            !s.active,
            !s.parked,
            s.frequency_hz is None,
            s.label is None,
            s.index == 0,
            s.total == 0,
    {
        ScanStatus { active: false, parked: false, frequency_hz: None, label: None, index: 0, total: 0 }
    }
}

/// The audio encoder's state.
#[derive(Clone, Copy, Debug)]
pub struct AudioStatus {
    pub encoder: &'static str,
    pub bitrate_bps: u32,
    pub frames_sent: u64,
    pub sample_rate_hz: u32,
    pub channels: u8,
}

/// Who a client says it is.
#[derive(Clone, Debug)]
pub struct ClientInfo {
    pub name: String,
    pub user_agent: String,
    pub capabilities: Vec<String>,
}

impl Default for ClientInfo {
    /// A client that gave no details.
    fn default() -> (c: Self)
        ensures
            c.name@.len() == 0,
            c.user_agent@.len() == 0,
            c.capabilities@.len() == 0,
    {
        ClientInfo { name: String::new(), user_agent: String::new(), capabilities: Vec::new() }
    }
}

/// `POST /api/v1/sessions` body.
#[derive(Clone, Debug)]
pub struct CreateSessionRequest {
    pub client: ClientInfo,
}

/// State of a session's WebRTC audio link.
#[derive(Clone, Copy, Debug, PartialEq, Eq, Structural)]
pub enum AudioConnState {
    Idle,
    Negotiating,
    Connected,
    Failed,
    Closed,
}

/// A session's audio, as listed.
#[derive(Clone, Copy, Debug, PartialEq, Eq, Structural)]
pub struct SessionAudio {
    pub state: AudioConnState,
}

/// Answer to a heartbeat.
#[derive(Clone, Copy, Debug, PartialEq, Eq, Structural)]
pub struct HeartbeatResponse {
    pub expires_in_s: u64,
}

/// An SDP offer or answer.
#[derive(Clone, Debug)]
pub struct SdpMessage {
    pub sdp: String,
    pub type_: String,
}

/// A session's audio link, in detail.
#[derive(Clone, Copy, Debug)]
pub struct AudioStateResponse {
    pub state: AudioConnState,
    pub ice_state: &'static str,
    pub dtls_state: &'static str,
    pub packets_sent: u64,
    pub bytes_sent: u64,
}

/// Query of the spectrum/waterfall frame request.
#[derive(Clone, Copy, Debug, PartialEq, Eq, Structural)]
pub struct SpectrumQuery {
    /// The client's row cursor: `seq` of the previous frame.
    pub since: u64,
    /// Cap on the waterfall rows of one frame (the catch-up bound).
    pub max_rows: Option<usize>,
}

/// Rows one frame may carry: the client's cap, 256 when it gave none, held
/// within `1..=4000`.
pub open spec fn row_cap(max_rows: Option<usize>) -> int {
    let m: int = match max_rows {
        Some(m) => m as int,
        None => 256,
    };
    if m < 1 {
        1
    } else if m > 4000 {
        4000
    } else {
        m
    }
}

impl SpectrumQuery {
    /// The number of rows to send.
    pub fn rows(&self) -> (r: usize)
        ensures
            r == row_cap(self.max_rows),
    {
        let m: usize = match self.max_rows {
            Some(m) => m,
            None => 256,
        };
        if m < 1 {
            1
        } else if m > 4000 {
            4000
        } else {
            m
        }
    }
}

} // verus!

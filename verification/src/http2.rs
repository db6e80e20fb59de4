//! HTTP/2 framing, SETTINGS, stream states and connection flow control.

use vstd::prelude::*;
use vstd::utf8::encode_utf8;
use crate::text::{append_bytes, decimal, u64_to_decimal, chars_of};
use crate::unicode::{lossy_text, decode_utf8_lossy};
use std::collections::HashMap;
use std::collections::hash_map::Entry;
use vstd::std_specs::hash::spec_keys_iter;
use vstd::std_specs::iter::IteratorSpec;

verus! {

broadcast use vstd::std_specs::hash::group_hash_axioms;

/// HTTP/2 frame type.
#[derive(Debug, Clone, Copy, PartialEq, Eq, Structural)]
pub enum FrameType {
    Data,
    Headers,
    Priority,
    RstStream,
    Settings,
    PushPromise,
    Ping,
    GoAway,
    WindowUpdate,
    Continuation,
    Unknown(u8),
}

pub open spec fn spec_frame_type(value: u8) -> FrameType {
    if value == 0 {
        FrameType::Data
    } else if value == 1 {
        FrameType::Headers
    } else if value == 2 {
        FrameType::Priority
    } else if value == 3 {
        FrameType::RstStream
    } else if value == 4 {
        FrameType::Settings
    } else if value == 5 {
        FrameType::PushPromise
    } else if value == 6 {
        FrameType::Ping
    } else if value == 7 {
        FrameType::GoAway
    } else if value == 8 {
        FrameType::WindowUpdate
    } else if value == 9 {
        FrameType::Continuation
    } else {
        FrameType::Unknown(value)
    }
}

impl FrameType {
    /// The frame type with code `value` (codes above 9 are `Unknown`).
    pub fn from_u8(value: u8) -> (r: Self)
        ensures
            r == spec_frame_type(value),
    {
        match value {
            0 => FrameType::Data,
            1 => FrameType::Headers,
            2 => FrameType::Priority,
            3 => FrameType::RstStream,
            4 => FrameType::Settings,
            5 => FrameType::PushPromise,
            6 => FrameType::Ping,
            7 => FrameType::GoAway,
            8 => FrameType::WindowUpdate,
            9 => FrameType::Continuation,
            _ => FrameType::Unknown(value),
        }
    }
}

/// The 9-byte frame header.
#[derive(Debug, Clone, Copy, PartialEq, Eq, Structural)]
pub struct FrameHeader {
    /// Payload length (24 bits).
    pub length: u32,
    pub frame_type: FrameType,
    pub flags: u8,
    /// Stream identifier (31 bits; the reserved bit is dropped).
    pub stream_id: u32,
}

/// HTTP/2 framing errors.
#[derive(Debug, Clone, Copy, PartialEq, Eq, Structural)]
pub enum H2Error {
    Incomplete,
    InvalidStreamId,
    InvalidSettings,
    TooLarge(u32),
}

impl H2Error {
    /// The human-readable description of the error.
    pub fn message(&self) -> (r: String)
        ensures
            r@ == match *self {
                H2Error::Incomplete => "Incomplete frame"@,
                H2Error::InvalidStreamId => "Invalid stream ID"@,
                H2Error::InvalidSettings => "Invalid settings parameter"@,
                H2Error::TooLarge(n) => "Frame too large: "@ + decimal(n as nat) + " bytes"@,
            },
    {
        match self {
            H2Error::Incomplete => "Incomplete frame".to_owned(),
            H2Error::InvalidStreamId => "Invalid stream ID".to_owned(),
            H2Error::InvalidSettings => "Invalid settings parameter".to_owned(),
            H2Error::TooLarge(n) => {
                let mut r = "Frame too large: ".to_owned();
                let d = u64_to_decimal(*n as u64);
                r.append(d.as_str());
                r.append(" bytes");
                r
            },
        }
    }
}

/// HTTP/2 error codes (RFC 7540, section 7).
#[derive(Debug, Clone, Copy, PartialEq, Eq, Structural)]
pub enum H2ErrorCode {
    NoError,
    ProtocolError,
    InternalError,
    FlowControlError,
    SettingsTimeout,
    StreamClosed,
    FrameSizeError,
    RefusedStream,
    Cancel,
    CompressionError,
    ConnectError,
    EnhanceYourCalm,
    InadequateSecurity,
    Http11Required,
}

impl H2ErrorCode {
    /// The code's value on the wire.
    pub fn code(&self) -> (r: u32)
        ensures
            r == match *self {
                H2ErrorCode::NoError => 0u32,
                H2ErrorCode::ProtocolError => 1,
                H2ErrorCode::InternalError => 2,
                H2ErrorCode::FlowControlError => 3,
                H2ErrorCode::SettingsTimeout => 4,
                H2ErrorCode::StreamClosed => 5,
                H2ErrorCode::FrameSizeError => 6,
                H2ErrorCode::RefusedStream => 7,
                H2ErrorCode::Cancel => 8,
                H2ErrorCode::CompressionError => 9,
                H2ErrorCode::ConnectError => 10,
                H2ErrorCode::EnhanceYourCalm => 11,
                H2ErrorCode::InadequateSecurity => 12,
                H2ErrorCode::Http11Required => 13,
            },
    {
        match self {
            H2ErrorCode::NoError => 0,
            H2ErrorCode::ProtocolError => 1,
            H2ErrorCode::InternalError => 2,
            H2ErrorCode::FlowControlError => 3,
            H2ErrorCode::SettingsTimeout => 4,
            H2ErrorCode::StreamClosed => 5,
            H2ErrorCode::FrameSizeError => 6,
            H2ErrorCode::RefusedStream => 7,
            H2ErrorCode::Cancel => 8,
            H2ErrorCode::CompressionError => 9,
            H2ErrorCode::ConnectError => 10,
            H2ErrorCode::EnhanceYourCalm => 11,
            H2ErrorCode::InadequateSecurity => 12,
            H2ErrorCode::Http11Required => 13,
        }
    }
}

/// SETTINGS parameter identifiers.
#[derive(Debug, Clone, Copy, PartialEq, Eq, Structural)]
pub enum SettingsParameter {
    HeaderTableSize,
    EnablePush,
    MaxConcurrentStreams,
    InitialWindowSize,
    MaxFrameSize,
    MaxHeaderListSize,
    Unknown(u16),
}

pub open spec fn spec_settings_parameter(value: u16) -> SettingsParameter {
    if value == 1 {
        SettingsParameter::HeaderTableSize
    } else if value == 2 {
        SettingsParameter::EnablePush
    } else if value == 3 {
        SettingsParameter::MaxConcurrentStreams
    } else if value == 4 {
        SettingsParameter::InitialWindowSize
    } else if value == 5 {
        SettingsParameter::MaxFrameSize
    } else if value == 6 {
        SettingsParameter::MaxHeaderListSize
    } else {
        SettingsParameter::Unknown(value)
    }
}

impl SettingsParameter {
    /// The parameter with identifier `value`.
    pub fn from_u16(value: u16) -> (r: Self)
        ensures
            r == spec_settings_parameter(value),
    {
        match value {
            1 => SettingsParameter::HeaderTableSize,
            2 => SettingsParameter::EnablePush,
            3 => SettingsParameter::MaxConcurrentStreams,
            4 => SettingsParameter::InitialWindowSize,
            5 => SettingsParameter::MaxFrameSize,
            6 => SettingsParameter::MaxHeaderListSize,
            _ => SettingsParameter::Unknown(value),
        }
    }
}

/// The values carried by SETTINGS frames.
#[derive(Debug, Clone, Copy, PartialEq, Eq, Structural)]
pub struct Settings {
    pub header_table_size: u32,
    pub enable_push: bool,
    pub max_concurrent_streams: Option<u32>,
    pub initial_window_size: u32,
    pub max_frame_size: u32,
    pub max_header_list_size: Option<u32>,
}

/// The protocol's initial settings.
pub open spec fn default_settings() -> Settings {
    Settings {
        header_table_size: 4096,
        enable_push: true,
        max_concurrent_streams: None,
        initial_window_size: 65535,
        max_frame_size: 16384,
        max_header_list_size: None,
    }
}

impl Default for Settings {
    fn default() -> (r: Self)
        ensures
            r == default_settings(),
    {
        Settings {
            header_table_size: 4096,
            enable_push: true,
            max_concurrent_streams: None,
            initial_window_size: 65535,
            max_frame_size: 16384,
            max_header_list_size: None,
        }
    }
}

/// The client connection preface.
pub const CONNECTION_PREFACE: [u8; 24] = [
    80, 82, 73, 32, 42, 32, 72, 84, 84, 80, 47, 50, 46, 48, 13, 10, 13, 10, 83, 77, 13, 10, 13, 10,
];

/// The fields of a frame header read from its nine bytes.
pub open spec fn spec_frame_header(d: Seq<u8>) -> Result<FrameHeader, H2Error> {
    if d.len() < 9 {
        Err(H2Error::Incomplete)
    } else {
        Ok(
            FrameHeader {
                length: (d[0] * 65536 + d[1] * 256 + d[2]) as u32,
                frame_type: spec_frame_type(d[3]),
                flags: d[4],
                stream_id: ((d[5] % 128) * 16777216 + d[6] * 65536 + d[7] * 256 + d[8]) as u32,
            },
        )
    }
}

proof fn lemma_be24(a: u8, b: u8, c: u8)
    ensures
        ((a as u32) << 16) | ((b as u32) << 8) | (c as u32) == a * 65536 + b * 256 + c,
{
    assert(((a as u32) << 16) | ((b as u32) << 8) | (c as u32) == (a as u32) * 65536 + (b as u32)
        * 256 + (c as u32)) by (bit_vector);
}

proof fn lemma_be31(a: u8, b: u8, c: u8, d: u8)
    ensures
        (((a as u32) & 0x7F) << 24) | ((b as u32) << 16) | ((c as u32) << 8) | (d as u32) == (a
            % 128) * 16777216 + b * 65536 + c * 256 + d,
{
    assert((((a as u32) & 0x7F) << 24) | ((b as u32) << 16) | ((c as u32) << 8) | (d as u32) == ((
    a as u32) % 128) * 16777216 + (b as u32) * 65536 + (c as u32) * 256 + (d as u32))
        by (bit_vector);
}

/// Reads a frame header from the first nine bytes of `data`.
pub fn parse_frame_header(data: &[u8]) -> (r: Result<FrameHeader, H2Error>)
    ensures
        r == spec_frame_header(data@),
{
    if data.len() < 9 {
        return Err(H2Error::Incomplete);
    }
    let length = ((data[0] as u32) << 16) | ((data[1] as u32) << 8) | (data[2] as u32);
    proof {
        lemma_be24(data[0], data[1], data[2]);
    }
    if length > 16_777_215 {
        return Err(H2Error::TooLarge(length));
    }
    let frame_type = FrameType::from_u8(data[3]);
    let flags = data[4];
    let stream_id = (((data[5] as u32) & 0x7F) << 24) | ((data[6] as u32) << 16) | ((data[7] as u32)
        << 8) | (data[8] as u32);
    proof {
        lemma_be31(data[5], data[6], data[7], data[8]);
    }
    Ok(FrameHeader { length, frame_type, flags, stream_id })
}


/// The identifier in the `k`-th six-byte SETTINGS entry.
pub open spec fn setting_id(d: Seq<u8>, k: int) -> u16 {
    (d[6 * k] * 256 + d[6 * k + 1]) as u16
}

/// The value in the `k`-th six-byte SETTINGS entry.
pub open spec fn setting_value(d: Seq<u8>, k: int) -> u32 {
    (d[6 * k + 2] * 16777216 + d[6 * k + 3] * 65536 + d[6 * k + 4] * 256 + d[6 * k + 5]) as u32
}

/// One SETTINGS entry applied to the settings so far. `MAX_FRAME_SIZE`
/// must lie in 16384..=16777215; unknown identifiers are ignored.
pub open spec fn apply_setting(s: Settings, id: u16, value: u32) -> Result<Settings, H2Error> {
    match spec_settings_parameter(id) {
        SettingsParameter::HeaderTableSize => Ok(Settings { header_table_size: value, ..s }),
        SettingsParameter::EnablePush => Ok(Settings { enable_push: value != 0, ..s }),
        SettingsParameter::MaxConcurrentStreams => Ok(
            Settings { max_concurrent_streams: Some(value), ..s },
        ),
        SettingsParameter::InitialWindowSize => Ok(Settings { initial_window_size: value, ..s }),
        SettingsParameter::MaxFrameSize => if 16384 <= value <= 16_777_215 {
            Ok(Settings { max_frame_size: value, ..s })
        } else {
            Err(H2Error::InvalidSettings)
        },
        SettingsParameter::MaxHeaderListSize => Ok(
            Settings { max_header_list_size: Some(value), ..s },
        ),
        SettingsParameter::Unknown(_) => Ok(s),
    }
}

/// The defaults with the first `n` entries of `d` applied in order.
pub open spec fn settings_after(d: Seq<u8>, n: nat) -> Result<Settings, H2Error>
    decreases n,
{
    if n == 0 {
        Ok(default_settings())
    } else {
        match settings_after(d, (n - 1) as nat) {
            Err(e) => Err(e),
            Ok(s) => apply_setting(s, setting_id(d, n - 1), setting_value(d, n - 1)),
        }
    }
}

/// A SETTINGS payload: a whole number of six-byte entries, applied in order.
pub open spec fn spec_parse_settings(d: Seq<u8>) -> Result<Settings, H2Error> {
    if d.len() % 6 != 0 {
        Err(H2Error::InvalidSettings)
    } else {
        settings_after(d, d.len() / 6)
    }
}

/// An error in one entry is the result of the whole payload.
proof fn lemma_settings_error_persists(d: Seq<u8>, k: nat, m: nat)
    requires
        k <= m,
        settings_after(d, k) is Err,
    ensures
        settings_after(d, m) == settings_after(d, k),
    decreases m - k,
{
    if k < m {
        lemma_settings_error_persists(d, k, (m - 1) as nat);
    }
}

proof fn lemma_be16(a: u8, b: u8)
    ensures
        ((a as u16) << 8) | (b as u16) == a * 256 + b,
{
    assert(((a as u16) << 8) | (b as u16) == (a as u16) * 256 + (b as u16)) by (bit_vector);
}

proof fn lemma_be32(a: u8, b: u8, c: u8, d: u8)
    ensures
        ((a as u32) << 24) | ((b as u32) << 16) | ((c as u32) << 8) | (d as u32) == a * 16777216 + b
            * 65536 + c * 256 + d,
{
    assert(((a as u32) << 24) | ((b as u32) << 16) | ((c as u32) << 8) | (d as u32) == (a as u32)
        * 16777216 + (b as u32) * 65536 + (c as u32) * 256 + (d as u32)) by (bit_vector);
}

/// Reads a SETTINGS payload into settings based on the defaults.
pub fn parse_settings(data: &[u8]) -> (r: Result<Settings, H2Error>)
    ensures
        r == spec_parse_settings(data@),
{
    let mut settings = Settings::default();
    if data.len() % 6 != 0 {
        return Err(H2Error::InvalidSettings);
    }
    let n = data.len() / 6;
    let mut k: usize = 0;
    while k < n
        invariant
            n == data.len() / 6,
            data.len() % 6 == 0,
            k <= n,
            settings_after(data@, k as nat) == Ok::<Settings, H2Error>(settings),
        decreases n - k,
    {
        let base = 6 * k;
        assert(base + 5 < data.len()) by (nonlinear_arith)
            requires
                base == 6 * k,
                k < n,
                n == data.len() / 6,
                data.len() % 6 == 0,
        ;
        let id = ((data[base] as u16) << 8) | (data[base + 1] as u16);
        let value = ((data[base + 2] as u32) << 24) | ((data[base + 3] as u32) << 16) | ((data[base
            + 4] as u32) << 8) | (data[base + 5] as u32);
        proof {
            lemma_be16(data[base as int], data[base + 1]);
            lemma_be32(data[base + 2], data[base + 3], data[base + 4], data[base + 5]);
        }
        assert(id == setting_id(data@, k as int));
        assert(value == setting_value(data@, k as int));
        match SettingsParameter::from_u16(id) {
            SettingsParameter::HeaderTableSize => {
                settings.header_table_size = value;
            },
            SettingsParameter::EnablePush => {
                settings.enable_push = value != 0;
            },
            SettingsParameter::MaxConcurrentStreams => {
                settings.max_concurrent_streams = Some(value);
            },
            SettingsParameter::InitialWindowSize => {
                settings.initial_window_size = value;
            },
            SettingsParameter::MaxFrameSize => {
                if !(16384 <= value && value <= 16_777_215) {
                    proof {
                        lemma_settings_error_persists(data@, (k + 1) as nat, n as nat);
                    }
                    return Err(H2Error::InvalidSettings);
                }
                settings.max_frame_size = value;
            },
            SettingsParameter::MaxHeaderListSize => {
                settings.max_header_list_size = Some(value);
            },
            SettingsParameter::Unknown(_) => {},
        }
        k = k + 1;
    }
    Ok(settings)
}


// ---------------------------------------------------------------------------
// Building frames.

/// Four bytes, most significant first.
pub open spec fn be32_bytes(x: u32) -> Seq<u8> {
    seq![(x / 16777216) as u8, (x / 65536 % 256) as u8, (x / 256 % 256) as u8, (x % 256) as u8]
}

/// Four bytes, most significant first, with the reserved top bit cleared.
pub open spec fn be31_bytes(x: u32) -> Seq<u8> {
    seq![(x / 16777216 % 128) as u8, (x / 65536 % 256) as u8, (x / 256 % 256) as u8, (x % 256) as u8]
}

/// A frame header: 24-bit length, type, flags, 31-bit stream identifier.
pub open spec fn frame_header_bytes(length: u32, ty: u8, flags: u8, stream_id: u32) -> Seq<u8> {
    seq![(length / 65536 % 256) as u8, (length / 256 % 256) as u8, (length % 256) as u8, ty, flags]
        + be31_bytes(stream_id)
}

fn push_be32(buf: &mut Vec<u8>, x: u32)
    ensures
        final(buf)@ == old(buf)@ + be32_bytes(x),
{
    let a = (x >> 24) as u8;
    let b = (x >> 16) as u8;
    let c = (x >> 8) as u8;
    let d = x as u8;
    assert(((x >> 24) as u8) == (x / 16777216) as u8 && ((x >> 16) as u8) == (x / 65536 % 256) as u8
        && ((x >> 8) as u8) == (x / 256 % 256) as u8 && (x as u8) == (x % 256) as u8) by (bit_vector);
    buf.push(a);
    buf.push(b);
    buf.push(c);
    buf.push(d);
    assert(final(buf)@ =~= old(buf)@ + be32_bytes(x));
}

fn push_be31(buf: &mut Vec<u8>, x: u32)
    ensures
        final(buf)@ == old(buf)@ + be31_bytes(x),
{
    let a = (x >> 24) as u8 & 0x7F;
    let b = (x >> 16) as u8;
    let c = (x >> 8) as u8;
    let d = x as u8;
    assert(((x >> 24) as u8 & 0x7F) == (x / 16777216 % 128) as u8 && ((x >> 16) as u8) == (x / 65536
        % 256) as u8 && ((x >> 8) as u8) == (x / 256 % 256) as u8 && (x as u8) == (x % 256) as u8)
        by (bit_vector);
    buf.push(a);
    buf.push(b);
    buf.push(c);
    buf.push(d);
    assert(final(buf)@ =~= old(buf)@ + be31_bytes(x));
}

fn push_frame_header(buf: &mut Vec<u8>, length: u32, ty: u8, flags: u8, stream_id: u32)
    ensures
        final(buf)@ == old(buf)@ + frame_header_bytes(length, ty, flags, stream_id),
{
    let a = (length >> 16) as u8;
    let b = (length >> 8) as u8;
    let c = length as u8;
    assert(((length >> 16) as u8) == (length / 65536 % 256) as u8 && ((length >> 8) as u8) == (length
        / 256 % 256) as u8 && (length as u8) == (length % 256) as u8) by (bit_vector);
    buf.push(a);
    buf.push(b);
    buf.push(c);
    buf.push(ty);
    buf.push(flags);
    push_be31(buf, stream_id);
    assert(final(buf)@ =~= old(buf)@ + frame_header_bytes(length, ty, flags, stream_id));
}

/// SETTINGS with the ACK flag and no payload.
pub fn build_settings_ack() -> (r: Vec<u8>)
    ensures
        r@ == frame_header_bytes(0, 4, 1, 0),
{
    let mut buf: Vec<u8> = Vec::new();
    push_frame_header(&mut buf, 0, 4, 1, 0);
    assert(buf@ =~= frame_header_bytes(0, 4, 1, 0));
    buf
}

/// The server's first SETTINGS frame: ENABLE_PUSH = 0, MAX_FRAME_SIZE =
/// 16384, INITIAL_WINDOW_SIZE = 65535.
pub fn build_initial_settings() -> (r: Vec<u8>)
    ensures
        r@ == frame_header_bytes(18, 4, 0, 0) + seq![0u8, 2, 0, 0, 0, 0] + seq![0u8, 5, 0, 0, 64, 0]
            + seq![0u8, 4, 0, 0, 255, 255],
{
    let mut buf: Vec<u8> = Vec::new();
    push_frame_header(&mut buf, 18, 4, 0, 0);
    let push_off: [u8; 6] = [0, 2, 0, 0, 0, 0];
    let frame_size: [u8; 6] = [0, 5, 0, 0, 0x40, 0];
    let window: [u8; 6] = [0, 4, 0, 0, 0xFF, 0xFF];
    append_bytes(&mut buf, push_off.as_slice());
    append_bytes(&mut buf, frame_size.as_slice());
    append_bytes(&mut buf, window.as_slice());
    assert(buf@ =~= frame_header_bytes(18, 4, 0, 0) + seq![0u8, 2, 0, 0, 0, 0] + seq![0u8, 5, 0, 0, 64, 0]
        + seq![0u8, 4, 0, 0, 255, 255]);
    buf
}

/// A HEADERS frame carrying an encoded header block; END_HEADERS is always
/// set, END_STREAM when `end_stream`.
pub fn build_headers_frame(stream_id: u32, headers: &[u8], end_stream: bool) -> (r: Vec<u8>)
    ensures
        r@ == frame_header_bytes(headers@.len() as u32, 1, if end_stream { 5 } else { 4 }, stream_id)
            + headers@,
{
    let length = headers.len() as u32;
    let flags: u8 = if end_stream { 0x05 } else { 0x04 };
    let mut buf: Vec<u8> = Vec::new();
    push_frame_header(&mut buf, length, 0x01, flags, stream_id);
    append_bytes(&mut buf, headers);
    assert(buf@ =~= frame_header_bytes(headers@.len() as u32, 1, flags, stream_id) + headers@);
    buf
}

/// A DATA frame; END_STREAM when `end_stream`.
pub fn build_data_frame(stream_id: u32, data: &[u8], end_stream: bool) -> (r: Vec<u8>)
    ensures
        r@ == frame_header_bytes(data@.len() as u32, 0, if end_stream { 1 } else { 0 }, stream_id)
            + data@,
{
    let length = data.len() as u32;
    let flags: u8 = if end_stream { 0x01 } else { 0x00 };
    let mut buf: Vec<u8> = Vec::new();
    push_frame_header(&mut buf, length, 0x00, flags, stream_id);
    append_bytes(&mut buf, data);
    assert(buf@ =~= frame_header_bytes(data@.len() as u32, 0, flags, stream_id) + data@);
    buf
}

/// An RST_STREAM frame with a four-byte error code.
pub fn build_rst_stream(stream_id: u32, error_code: u32) -> (r: Vec<u8>)
    ensures
        r@ == frame_header_bytes(4, 3, 0, stream_id) + be32_bytes(error_code),
{
    let mut buf: Vec<u8> = Vec::new();
    push_frame_header(&mut buf, 4, 0x03, 0, stream_id);
    push_be32(&mut buf, error_code);
    assert(buf@ =~= frame_header_bytes(4, 3, 0, stream_id) + be32_bytes(error_code));
    buf
}

/// A GOAWAY frame on stream 0: last stream identifier and error code.
pub fn build_goaway(last_stream_id: u32, error_code: u32) -> (r: Vec<u8>)
    ensures
        r@ == frame_header_bytes(8, 7, 0, 0) + be31_bytes(last_stream_id) + be32_bytes(error_code),
{
    let mut buf: Vec<u8> = Vec::new();
    push_frame_header(&mut buf, 8, 0x07, 0, 0);
    push_be31(&mut buf, last_stream_id);
    push_be32(&mut buf, error_code);
    assert(buf@ =~= frame_header_bytes(8, 7, 0, 0) + be31_bytes(last_stream_id) + be32_bytes(
        error_code,
    ));
    buf
}

/// The window increment of a WINDOW_UPDATE payload (31 bits; zero is an
/// error).
pub open spec fn spec_window_update(d: Seq<u8>) -> Result<u32, H2Error> {
    if d.len() < 4 {
        Err(H2Error::Incomplete)
    } else {
        let inc = ((d[0] % 128) * 16777216 + d[1] * 65536 + d[2] * 256 + d[3]) as u32;
        if inc == 0 {
            Err(H2Error::InvalidSettings)
        } else {
            Ok(inc)
        }
    }
}

/// Reads the increment of a WINDOW_UPDATE payload.
pub fn parse_window_update(data: &[u8]) -> (r: Result<u32, H2Error>)
    ensures
        r == spec_window_update(data@),
{
    if data.len() < 4 {
        return Err(H2Error::Incomplete);
    }
    let increment = (((data[0] as u32) & 0x7F) << 24) | ((data[1] as u32) << 16) | ((data[2] as u32)
        << 8) | (data[3] as u32);
    proof {
        lemma_be31(data[0], data[1], data[2], data[3]);
    }
    if increment == 0 {
        return Err(H2Error::InvalidSettings);
    }
    Ok(increment)
}

/// A WINDOW_UPDATE frame.
pub fn build_window_update(stream_id: u32, increment: u32) -> (r: Vec<u8>)
    ensures
        r@ == frame_header_bytes(4, 8, 0, stream_id) + be31_bytes(increment),
{
    let mut buf: Vec<u8> = Vec::new();
    push_frame_header(&mut buf, 4, 0x08, 0, stream_id);
    push_be31(&mut buf, increment);
    assert(buf@ =~= frame_header_bytes(4, 8, 0, stream_id) + be31_bytes(increment));
    buf
}

/// A PUSH_PROMISE frame: promised stream identifier, then the header block.
pub fn build_push_promise(stream_id: u32, promised_stream_id: u32, headers: &[u8]) -> (r: Vec<u8>)
    requires
        (headers@.len() as u32) <= u32::MAX - 4,
    ensures
        r@ == frame_header_bytes((4 + (headers@.len() as u32)) as u32, 5, 4, stream_id) + be31_bytes(
            promised_stream_id,
        ) + headers@,
{
    let length = 4 + headers.len() as u32;
    let mut buf: Vec<u8> = Vec::new();
    push_frame_header(&mut buf, length, 0x05, 0x04, stream_id);
    push_be31(&mut buf, promised_stream_id);
    append_bytes(&mut buf, headers);
    assert(buf@ =~= frame_header_bytes(length, 5, 4, stream_id) + be31_bytes(promised_stream_id)
        + headers@);
    buf
}


// ---------------------------------------------------------------------------
// Streams.

/// HTTP/2 stream states.
#[derive(Debug, Clone, Copy, PartialEq, Eq, Structural)]
pub enum StreamState {
    Idle,
    ReservedLocal,
    ReservedRemote,
    Open,
    HalfClosedLocal,
    HalfClosedRemote,
    Closed,
}

/// The state changes a stream accepts: from Idle to anything; from Open to
/// either half-closed state or Closed; from a half-closed state to Closed;
/// from ReservedLocal to HalfClosedRemote or Closed; from ReservedRemote to
/// HalfClosedLocal or Closed.
pub open spec fn allowed_transition(from: StreamState, to: StreamState) -> bool {
    match (from, to) {
        (StreamState::Idle, _) => true,
        (StreamState::Open, StreamState::HalfClosedLocal) => true,
        (StreamState::Open, StreamState::HalfClosedRemote) => true,
        (StreamState::Open, StreamState::Closed) => true,
        (StreamState::HalfClosedLocal, StreamState::Closed) => true,
        (StreamState::HalfClosedRemote, StreamState::Closed) => true,
        (StreamState::ReservedLocal, StreamState::HalfClosedRemote) => true,
        (StreamState::ReservedLocal, StreamState::Closed) => true,
        (StreamState::ReservedRemote, StreamState::HalfClosedLocal) => true,
        (StreamState::ReservedRemote, StreamState::Closed) => true,
        _ => false,
    }
}

/// Every stream that is not closed may be closed (RFC 7540, section 5.1):
/// from each state but `Closed` the move to `Closed` is accepted. A closed
/// stream moves nowhere, no stream goes back to `Idle` once it has left it,
/// an open stream may half-close either side, a half-closed stream never
/// reopens, and only an idle stream becomes reserved.
pub proof fn lemma_streams_can_close(from: StreamState, to: StreamState)
    ensures
        from != StreamState::Closed ==> allowed_transition(from, StreamState::Closed),
        !allowed_transition(StreamState::Closed, to),
        from != StreamState::Idle ==> !allowed_transition(from, StreamState::Idle),
        allowed_transition(StreamState::Open, StreamState::HalfClosedLocal),
        allowed_transition(StreamState::Open, StreamState::HalfClosedRemote),
        (from == StreamState::HalfClosedLocal || from == StreamState::HalfClosedRemote)
            ==> !allowed_transition(from, StreamState::Open),
        (to == StreamState::ReservedLocal || to == StreamState::ReservedRemote) ==> (
        allowed_transition(from, to) <==> from == StreamState::Idle),
{
}

/// One HTTP/2 stream.
#[derive(Debug, Clone, Copy, PartialEq, Eq, Structural)]
pub struct Stream {
    pub id: u32,
    pub state: StreamState,
    pub send_window: u32,
    pub recv_window: u32,
}

pub open spec fn new_stream(id: u32) -> Stream {
    Stream { id, state: StreamState::Idle, send_window: 65535, recv_window: 65535 }
}

impl Stream {
    /// An idle stream with the default windows.
    pub fn new(id: u32) -> (r: Self)
        ensures
            r == new_stream(id),
    {
        Stream { id, state: StreamState::Idle, send_window: 65535, recv_window: 65535 }
    }

    /// Moves to `new_state` if the change is allowed; says whether it was.
    pub fn transition(&mut self, new_state: StreamState) -> (r: bool)
        ensures
            r == allowed_transition(old(self).state, new_state),
            *final(self) == (if r {
                Stream { state: new_state, ..*old(self) }
            } else {
                *old(self)
            }),
    {
        let ok = match (self.state, new_state) {
            (StreamState::Idle, _) => true,
            (StreamState::Open, StreamState::HalfClosedLocal)
            | (StreamState::Open, StreamState::HalfClosedRemote)
            | (StreamState::Open, StreamState::Closed) => true,
            (StreamState::HalfClosedLocal, StreamState::Closed)
            | (StreamState::HalfClosedRemote, StreamState::Closed) => true,
            (StreamState::ReservedLocal, StreamState::HalfClosedRemote)
            | (StreamState::ReservedLocal, StreamState::Closed)
            | (StreamState::ReservedRemote, StreamState::HalfClosedLocal)
            | (StreamState::ReservedRemote, StreamState::Closed) => true,
            _ => false,
        };
        if ok {
            self.state = new_state;
        }
        ok
    }

    /// Data may be sent while the stream is open or half-closed by the peer
    /// and the send window is not empty.
    pub fn can_send(&self) -> (r: bool)
        ensures
            r == ((self.state == StreamState::Open || self.state == StreamState::HalfClosedRemote)
                && self.send_window > 0),
    {
        (self.state == StreamState::Open || self.state == StreamState::HalfClosedRemote)
            && self.send_window > 0
    }

    /// Data may arrive while the stream is open or half-closed locally and the
    /// receive window is not empty.
    pub fn can_receive(&self) -> (r: bool)
        ensures
            r == ((self.state == StreamState::Open || self.state == StreamState::HalfClosedLocal)
                && self.recv_window > 0),
    {
        (self.state == StreamState::Open || self.state == StreamState::HalfClosedLocal)
            && self.recv_window > 0
    }
}

// ---------------------------------------------------------------------------
// The connection.

/// The number of streams that are not closed.
pub open spec fn count_active(m: Map<u32, Stream>) -> nat {
    m.dom().filter(|k: u32| m[k].state != StreamState::Closed).len()
}

/// `r` is the largest odd (client-initiated) identifier kept, or 0 when no
/// odd identifier is kept.
pub open spec fn is_max_client_id(m: Map<u32, Stream>, r: u32) -> bool {
    &&& (r == 0 || (m.contains_key(r) && r % 2 == 1))
    &&& forall|k: u32| m.contains_key(k) && k % 2 == 1 ==> k <= r
}

/// The largest odd (client-initiated) identifier kept, or 0.
pub open spec fn max_client_id(m: Map<u32, Stream>) -> u32 {
    choose|r: u32| is_max_client_id(m, r)
}

proof fn lemma_max_client_id_unique(m: Map<u32, Stream>, a: u32, b: u32)
    requires
        is_max_client_id(m, a),
        is_max_client_id(m, b),
    ensures
        a == b,
{
}

/// A map with finitely many streams has a largest odd identifier (or none).
proof fn lemma_max_client_id_exists(m: Map<u32, Stream>)
    requires
        m.dom().finite(),
    ensures
        is_max_client_id(m, max_client_id(m)),
    decreases m.dom().len(),
{
    if m.dom().len() == 0 {
        assert(is_max_client_id(m, 0)) by {
            assert forall|k: u32| m.contains_key(k) && k % 2 == 1 implies k <= 0 by {
                assert(m.dom().contains(k));
            }
        }
    } else {
        let k = m.dom().choose();
        let rest = m.remove(k);
        assert(rest.dom() =~= m.dom().remove(k));
        lemma_max_client_id_exists(rest);
        let r0 = max_client_id(rest);
        let r: u32 = if k % 2 == 1 && k > r0 {
            k
        } else {
            r0
        };
        assert(is_max_client_id(m, r)) by {
            assert forall|j: u32| m.contains_key(j) && j % 2 == 1 implies j <= r by {
                if j != k {
                    assert(rest.contains_key(j));
                }
            }
        }
    }
}

/// The number of kept identifiers among `s` whose stream is not closed.
pub open spec fn count_active_keys(m: Map<u32, Stream>, s: Seq<u32>) -> nat
    decreases s.len(),
{
    if s.len() == 0 {
        0
    } else {
        count_active_keys(m, s.drop_last()) + if m.contains_key(s.last()) && m[s.last()].state
            != StreamState::Closed {
            1nat
        } else {
            0nat
        }
    }
}

proof fn lemma_count_active_keys(m: Map<u32, Stream>, s: Seq<u32>)
    requires
        s.no_duplicates(),
    ensures
        count_active_keys(m, s) == s.to_set().filter(
            |k: u32| m.contains_key(k) && m[k].state != StreamState::Closed,
        ).len(),
        s.to_set().finite(),
    decreases s.len(),
{
    let p = |k: u32| m.contains_key(k) && m[k].state != StreamState::Closed;
    if s.len() == 0 {
        assert(s.to_set() =~= Set::<u32>::empty());
        assert(s.to_set().filter(p) =~= Set::<u32>::empty());
    } else {
        let t = s.drop_last();
        let x = s.last();
        assert(t.no_duplicates()) by {
            assert forall|i: int, j: int| 0 <= i < t.len() && 0 <= j < t.len() && i != j implies t[i] != t[j] by {
                assert(t[i] == s[i] && t[j] == s[j]);
            }
        }
        lemma_count_active_keys(m, t);
        assert(!t.contains(x)) by {
            if t.contains(x) {
                let i = choose|i: int| 0 <= i < t.len() && t[i] == x;
                assert(s[i] == s[s.len() - 1]);
            }
        }
        assert(s =~= t.push(x));
        assert(s.to_set() =~= t.to_set().insert(x)) by {
            assert forall|y: u32| s.to_set().contains(y) <==> t.to_set().insert(x).contains(y) by {
                if s.contains(y) {
                    let i = choose|i: int| 0 <= i < s.len() && s[i] == y;
                    if i < t.len() {
                        assert(t[i] == y);
                    }
                }
                if t.contains(y) {
                    let i = choose|i: int| 0 <= i < t.len() && t[i] == y;
                    assert(s[i] == y);
                }
                if y == x {
                    assert(s[s.len() - 1] == y);
                }
            }
        }
        assert(!t.to_set().contains(x));
        if p(x) {
            assert(s.to_set().filter(p) =~= t.to_set().filter(p).insert(x));
        } else {
            assert(s.to_set().filter(p) =~= t.to_set().filter(p));
        }
    }
}

/// An HTTP/2 connection: settings on both sides, the streams by
/// identifier, and connection-level flow-control windows.
#[derive(Debug)]
pub struct Connection {
    pub local_settings: Settings,
    pub peer_settings: Settings,
    /// Streams by identifier.
    pub streams: HashMap<u32, Stream>,
    pub next_server_stream_id: u32,
    pub connection_send_window: i64,
    pub connection_recv_window: i64,
}

/// `new` is `old` with the stream `id`, if kept, closed.
pub open spec fn stream_closed(old: Connection, new: Connection, id: u32) -> bool {
    &&& forall|k: u32| #[trigger] new.stream(k) == if k == id && old.stream(k) is Some {
        Some(Stream { state: StreamState::Closed, ..old.stream(k)->Some_0 })
    } else {
        old.stream(k)
    }
    &&& new.local_settings == old.local_settings
    &&& new.peer_settings == old.peer_settings
    &&& new.next_server_id() == old.next_server_id()
    &&& new.connection_send_window == old.connection_send_window
    &&& new.connection_recv_window == old.connection_recv_window
}

/// `new` and `r` are what growing the send window of stream `id` of `old`
/// by `increment` gives: an unknown stream is left alone; a window above
/// 2^31 - 1 is refused.
pub open spec fn stream_window_grown(old: Connection, new: Connection, id: u32, increment: u32, r: Result<
    (),
    H2Error,
>) -> bool {
    match old.stream(id) {
        None => r == Ok::<(), H2Error>(()) && new == old,
        Some(s) => if s.send_window + increment > i32::MAX {
            r == Err::<(), H2Error>(H2Error::InvalidSettings) && new == old
        } else {
            r == Ok::<(), H2Error>(()) && (forall|k: u32| #[trigger] new.stream(k) == if k == id {
                Some(Stream { send_window: (s.send_window + increment) as u32, ..s })
            } else {
                old.stream(k)
            }) && new.local_settings == old.local_settings && new.peer_settings == old.peer_settings
                && new.next_server_id() == old.next_server_id() && new.connection_send_window
                == old.connection_send_window && new.connection_recv_window == old.connection_recv_window
        },
    }
}

impl Default for Connection {
    fn default() -> (r: Self)
        ensures
            r.local_settings == default_settings(),
            r.peer_settings == default_settings(),
            r.streams@ == Map::<u32, Stream>::empty(),
            r.next_server_id() == 2,
            r.connection_send_window == 65535,
            r.connection_recv_window == 65535,
    {
        Connection::new()
    }
}

impl Connection {
    /// The identifier the next server-initiated stream gets.
    pub open spec fn next_server_id(&self) -> u32 {
        self.next_server_stream_id
    }

    /// The stream kept under `id`.
    pub open spec fn stream(&self, id: u32) -> Option<Stream> {
        if self.streams@.contains_key(id) {
            Some(self.streams@[id])
        } else {
            None
        }
    }

    /// A fresh connection: default settings, no streams, server stream
    /// identifiers starting at 2, windows of 65535.
    pub fn new() -> (r: Self)
        ensures
            r.local_settings == default_settings(),
            r.peer_settings == default_settings(),
            r.streams@ == Map::<u32, Stream>::empty(),
            r.next_server_id() == 2,
            r.connection_send_window == 65535,
            r.connection_recv_window == 65535,
    {
        Connection {
            local_settings: Settings::default(),
            peer_settings: Settings::default(),
            streams: HashMap::new(),
            next_server_stream_id: 2,
            connection_send_window: 65535,
            connection_recv_window: 65535,
        }
    }

    /// Opens a server-initiated (even) stream and returns its identifier;
    /// identifiers go up by two.
    pub fn create_server_stream(&mut self) -> (r: u32)
        requires
            old(self).next_server_id() <= u32::MAX - 2,
        ensures
            r == old(self).next_server_id(),
            final(self).next_server_id() == old(self).next_server_id() + 2,
            forall|k: u32| #[trigger] final(self).stream(k) == if k == r {
                Some(new_stream(r))
            } else {
                old(self).stream(k)
            },
            final(self).local_settings == old(self).local_settings,
            final(self).peer_settings == old(self).peer_settings,
            final(self).connection_send_window == old(self).connection_send_window,
            final(self).connection_recv_window == old(self).connection_recv_window,
    {
        let id = self.next_server_stream_id;
        self.next_server_stream_id = self.next_server_stream_id + 2;
        self.put_stream(id, Stream::new(id));
        id
    }

    /// Accepts a client-initiated stream: the identifier must be odd and
    /// larger than every odd identifier already kept.
    pub fn accept_client_stream(&mut self, id: u32) -> (r: Option<&mut Stream>)
        ensures
            (r is Some) == (id % 2 == 1 && id > max_client_id(old(self).streams@)),
            r matches Some(s) ==> *s == new_stream(id),
            r matches Some(s) ==> forall|k: u32| #[trigger] final(self).stream(k) == if k == id {
                Some(*final(s))
            } else {
                old(self).stream(k)
            },
            r matches Some(s) ==> final(self).local_settings == old(self).local_settings
                && final(self).peer_settings == old(self).peer_settings
                && final(self).next_server_id() == old(self).next_server_id()
                && final(self).connection_send_window == old(self).connection_send_window
                && final(self).connection_recv_window == old(self).connection_recv_window,
            r is None ==> *final(self) == *old(self),
    {
        if id % 2 == 0 || id == 0 {
            return None;
        }
        let max_id = self.max_client_stream_id();
        if id <= max_id {
            return None;
        }
        proof {
            lemma_max_client_id_exists(self.streams@);
            assert(!self.streams@.contains_key(id));
        }
        Some(self.streams.entry(id).or_insert(Stream::new(id)))
    }

    /// The stream kept under `id`.
    pub fn get_stream(&self, id: u32) -> (r: Option<&Stream>)
        ensures
            match r {
                Some(s) => self.stream(id) == Some(*s),
                None => self.stream(id) is None,
            },
    {
        self.streams.get(&id)
    }

    /// The stream kept under `id`, to be changed in place.
    pub fn get_stream_mut(&mut self, id: u32) -> (r: Option<&mut Stream>)
        ensures
            (r is Some) == (old(self).stream(id) is Some),
            r matches Some(s) ==> old(self).stream(id) == Some(*s),
            r matches Some(s) ==> forall|k: u32| #[trigger] final(self).stream(k) == if k == id {
                Some(*final(s))
            } else {
                old(self).stream(k)
            },
            r matches Some(s) ==> final(self).local_settings == old(self).local_settings
                && final(self).peer_settings == old(self).peer_settings
                && final(self).next_server_id() == old(self).next_server_id()
                && final(self).connection_send_window == old(self).connection_send_window
                && final(self).connection_recv_window == old(self).connection_recv_window,
            r is None ==> *final(self) == *old(self),
    {
        if !self.streams.contains_key(&id) {
            return None;
        }
        match self.streams.entry(id) {
            Entry::Occupied(o) => Some(o.into_mut()),
            Entry::Vacant(_) => None,
        }
    }

    /// Marks the stream kept under `id` closed; other streams and absent
    /// identifiers are left alone.
    pub fn close_stream(&mut self, id: u32)
        ensures
            stream_closed(*old(self), *final(self), id),
    {
        match self.streams.get(&id) {
            Some(s) => {
                let mut st = *s;
                st.state = StreamState::Closed;
                self.put_stream(id, st);
            },
            None => {},
        }
    }

    /// Takes the settings the peer announced.
    pub fn update_peer_settings(&mut self, settings: Settings)
        ensures
            *final(self) == (Connection { peer_settings: settings, ..*old(self) }),
    {
        self.peer_settings = settings;
    }

    /// The number of streams that are not closed.
    pub fn active_stream_count(&self) -> (r: usize)
        ensures
            r == count_active(self.streams@),
    {
        let ghost m = self.streams@;
        let ghost all = spec_keys_iter(&self.streams).remaining().unref();
        let total = self.streams.len();
        let mut n: usize = 0;
        for k in it: self.streams.keys()
            invariant
                m == self.streams@,
                it.seq().unref() == all,
                total == m.len(),
                it.seq().unref().to_set() == m.dom(),
                it.seq().unref().no_duplicates(),
                it.seq().len() == m.dom().len(),
                n == count_active_keys(m, it.seq().unref().take(it.index())),
                n <= it.index(),
        {
            let ghost s = it.seq().unref();
            assert(s.take(it.index() + 1).drop_last() =~= s.take(it.index()));
            assert(s.take(it.index() + 1).last() == *k);
            match self.streams.get(k) {
                Some(st) => {
                    if st.state != StreamState::Closed {
                        n = n + 1;
                    }
                },
                None => {},
            }
        }
        proof {
            let s = all;
            assert(s.take(s.len() as int) =~= s);
            lemma_count_active_keys(m, s);
            assert(s.to_set().filter(|k: u32| m.contains_key(k) && m[k].state != StreamState::Closed)
                =~= m.dom().filter(|k: u32| m[k].state != StreamState::Closed));
        }
        n
    }

    /// Grows the connection send window by `increment`; a window above
    /// 2^31 - 1 is refused and the window kept.
    pub fn update_connection_send_window(&mut self, increment: u32) -> (r: Result<(), H2Error>)
        requires
            old(self).connection_send_window + increment <= i64::MAX,
        ensures
            old(self).connection_send_window + increment > i32::MAX ==> r == Err::<(), H2Error>(
                H2Error::InvalidSettings,
            ) && *final(self) == *old(self),
            old(self).connection_send_window + increment <= i32::MAX ==> r == Ok::<(), H2Error>(())
                && *final(self) == (Connection {
                connection_send_window: (old(self).connection_send_window + increment) as i64,
                ..*old(self)
            }),
    {
        let new_window = self.connection_send_window + increment as i64;
        if new_window > (i32::MAX as i64) {
            return Err(H2Error::InvalidSettings);
        }
        self.connection_send_window = new_window;
        Ok(())
    }

    /// Grows the send window of stream `stream_id` by `increment`; a window
    /// above 2^31 - 1 is refused. An unknown stream is not an error.
    pub fn update_stream_send_window(&mut self, stream_id: u32, increment: u32) -> (r: Result<
        (),
        H2Error,
    >)
        ensures
            stream_window_grown(*old(self), *final(self), stream_id, increment, r),
    {
        match self.streams.get(&stream_id) {
            Some(s) => {
                let mut st = *s;
                let new_window = st.send_window as i64 + increment as i64;
                if new_window > (i32::MAX as i64) {
                    return Err(H2Error::InvalidSettings);
                }
                st.send_window = new_window as u32;
                self.put_stream(stream_id, st);
                Ok(())
            },
            None => Ok(()),
        }
    }

    /// Spends `size` bytes of the connection send window (it may go negative).
    pub fn consume_connection_send_window(&mut self, size: u32)
        requires
            old(self).connection_send_window - size >= i64::MIN,
        ensures
            *final(self) == (Connection {
                connection_send_window: (old(self).connection_send_window - size) as i64,
                ..*old(self)
            }),
    {
        self.connection_send_window = self.connection_send_window - size as i64;
    }

    /// Spends `size` bytes of the send window of stream `stream_id`, stopping
    /// at zero; an unknown stream is left alone.
    pub fn consume_stream_send_window(&mut self, stream_id: u32, size: u32)
        ensures
            forall|k: u32| #[trigger] final(self).stream(k) == if k == stream_id && old(self).stream(k) is Some {
                Some(Stream {
                    send_window: if old(self).stream(k)->Some_0.send_window >= size {
                        (old(self).stream(k)->Some_0.send_window - size) as u32
                    } else {
                        0u32
                    },
                    ..old(self).stream(k)->Some_0
                })
            } else {
                old(self).stream(k)
            },
            final(self).local_settings == old(self).local_settings,
            final(self).peer_settings == old(self).peer_settings,
            final(self).next_server_id() == old(self).next_server_id(),
            final(self).connection_send_window == old(self).connection_send_window,
            final(self).connection_recv_window == old(self).connection_recv_window,
    {
        match self.streams.get(&stream_id) {
            Some(s) => {
                let mut st = *s;
                st.send_window = st.send_window.saturating_sub(size);
                self.put_stream(stream_id, st);
            },
            None => {},
        }
    }

    /// The largest odd identifier kept, or 0.
    fn max_client_stream_id(&self) -> (r: u32)
        ensures
            r == max_client_id(self.streams@),
    {
        let ghost m = self.streams@;
        let ghost all = spec_keys_iter(&self.streams).remaining().unref();
        let mut best: u32 = 0;
        for k in it: self.streams.keys()
            invariant
                m == self.streams@,
                it.seq().unref() == all,
                it.seq().unref().to_set() == m.dom(),
                forall|j: int| 0 <= j < it.index() ==> (#[trigger] *it.seq()[j]) % 2 == 1 ==> *it.seq()[j] <= best,
                best == 0 || (m.contains_key(best) && best % 2 == 1),
        {
            if *k % 2 == 1 && *k > best {
                best = *k;
            }
        }
        proof {
            assert forall|k: u32| m.contains_key(k) && k % 2 == 1 implies k <= best by {
                assert(all.to_set().contains(k));
                let j = choose|j: int| 0 <= j < all.len() && all[j] == k;
            }
            assert(is_max_client_id(m, best));
            lemma_max_client_id_unique(m, best, max_client_id(m));
        }
        best
    }

    /// Keeps `stream` under `id`, replacing any stream kept there.
    fn put_stream(&mut self, id: u32, stream: Stream)
        ensures
            final(self).streams@ == old(self).streams@.insert(id, stream),
            forall|k: u32| #[trigger] final(self).stream(k) == if k == id {
                Some(stream)
            } else {
                old(self).stream(k)
            },
            final(self).local_settings == old(self).local_settings,
            final(self).peer_settings == old(self).peer_settings,
            final(self).next_server_id() == old(self).next_server_id(),
            final(self).connection_send_window == old(self).connection_send_window,
            final(self).connection_recv_window == old(self).connection_recv_window,
    {
        self.streams.insert(id, stream);
    }
}

/// How many of the steps create a server stream.
pub open spec fn count_creates(c: Seq<bool>) -> nat
    decreases c.len(),
{
    if c.len() == 0 {
        0
    } else {
        count_creates(c.drop_last()) + if c.last() {
            1nat
        } else {
            0nat
        }
    }
}

/// A run of a connection: `states[i + 1]` follows `states[i]` by a call of
/// `create_server_stream` where `creates[i]` (the next server identifier
/// goes up by two), else by any other call, which leaves the next server
/// identifier as it was (as the other methods of `Connection` and
/// `h2_on_frame` state).
pub open spec fn server_id_run(states: Seq<Connection>, creates: Seq<bool>) -> bool {
    &&& states.len() == creates.len() + 1
    &&& forall|i: int|
        0 <= i < creates.len() ==> states[i + 1].next_server_id() == if #[trigger] creates[i] {
            states[i].next_server_id() + 2
        } else {
            states[i].next_server_id() as int
        }
}

/// A prefix of the steps never counts more creations than a longer one,
/// and the step at `i`, where it creates, counts once more after it.
pub proof fn lemma_count_creates_grows(c: Seq<bool>, i: int, j: int)
    requires
        0 <= i <= j <= c.len(),
    ensures
        count_creates(c.take(i)) <= count_creates(c.take(j)),
        i < c.len() ==> count_creates(c.take(i + 1)) == count_creates(c.take(i)) + if c[i] {
            1nat
        } else {
            0nat
        },
    decreases j - i,
{
    if i < c.len() {
        assert(c.take(i + 1).drop_last() =~= c.take(i));
        assert(c.take(i + 1).last() == c[i]);
    }
    if i < j {
        lemma_count_creates_grows(c, i + 1, j);
    }
}

/// Server streams are numbered 2, 4, 6, ...: on a connection that starts
/// as `Connection::new` leaves it, the next server identifier before a step
/// is twice one more than the streams created so far. As
/// `create_server_stream` returns the next server identifier, its k-th call
/// returns 2k, whatever other calls come between, and a later creating
/// step always gets a larger identifier than an earlier one, so none is
/// given twice.
pub proof fn lemma_server_stream_ids(states: Seq<Connection>, creates: Seq<bool>)
    requires
        server_id_run(states, creates),
        states[0].next_server_id() == 2,
    ensures
        forall|i: int|
            0 <= i < states.len() ==> #[trigger] states[i].next_server_id() == 2 * (count_creates(
                creates.take(i),
            ) + 1),
        forall|i: int, j: int|
            0 <= i < j < creates.len() && #[trigger] creates[i] && #[trigger] creates[j]
                ==> states[i].next_server_id() < states[j].next_server_id(),
    decreases creates.len(),
{
    lemma_server_stream_ids_count(states, creates);
    assert forall|i: int, j: int|
        0 <= i < j < creates.len() && #[trigger] creates[i] && #[trigger] creates[j]
            implies states[i].next_server_id() < states[j].next_server_id() by {
        lemma_count_creates_grows(creates, i, j);
        lemma_count_creates_grows(creates, i + 1, j);
        assert(states[i].next_server_id() == 2 * (count_creates(creates.take(i)) + 1));
        assert(states[j].next_server_id() == 2 * (count_creates(creates.take(j)) + 1));
    }
}

proof fn lemma_server_stream_ids_count(states: Seq<Connection>, creates: Seq<bool>)
    requires
        server_id_run(states, creates),
        states[0].next_server_id() == 2,
    ensures
        forall|i: int|
            0 <= i < states.len() ==> #[trigger] states[i].next_server_id() == 2 * (count_creates(
                creates.take(i),
            ) + 1),
    decreases creates.len(),
{
    if creates.len() == 0 {
        assert(creates.take(0) =~= Seq::<bool>::empty());
    } else {
        let n = creates.len() - 1;
        let s0 = states.drop_last();
        let c0 = creates.drop_last();
        assert forall|i: int| 0 <= i < c0.len() implies s0[i + 1].next_server_id() == if #[trigger] c0[i] {
            s0[i].next_server_id() + 2
        } else {
            s0[i].next_server_id() as int
        } by {
            assert(creates[i] == c0[i]);
        }
        lemma_server_stream_ids_count(s0, c0);
        assert forall|i: int| 0 <= i < states.len() implies #[trigger] states[i].next_server_id() == 2 * (
        count_creates(creates.take(i)) + 1) by {
            if i < states.len() - 1 {
                assert(s0[i] == states[i]);
                assert(c0.take(i) =~= creates.take(i));
            } else {
                assert(s0[n] == states[n]);
                assert(c0.take(n) =~= c0);
                assert(creates.take(i) =~= creates);
                assert(creates.drop_last() =~= c0);
                assert(creates[n] == creates.last());
            }
        }
    }
}

/// A client stream identifier is accepted at most once: once a stream is
/// kept under an odd identifier, the condition on which
/// `accept_client_stream` accepts that identifier is false.
pub proof fn lemma_client_stream_accepted_once(c: Connection, id: u32)
    requires
        c.stream(id) is Some,
    ensures
        !(id % 2 == 1 && id > max_client_id(c.streams@)),
{
    lemma_max_client_id_exists(c.streams@);
}

// ---------------------------------------------------------------------------
// Laws.

/// Round trip: the header of every frame built here reads back as the
/// length, type, flags and stream identifier that went in (the stream
/// identifier without its reserved top bit), whatever payload follows.
pub proof fn lemma_frame_header_roundtrip(
    length: u32,
    ty: u8,
    flags: u8,
    stream_id: u32,
    payload: Seq<u8>,
)
    requires
        length < 16777216,
    ensures
        spec_frame_header(frame_header_bytes(length, ty, flags, stream_id) + payload) == Ok::<
            FrameHeader,
            H2Error,
        >(
            FrameHeader {
                length,
                frame_type: spec_frame_type(ty),
                flags,
                stream_id: stream_id % 2147483648,
            },
        ),
{
    let d = frame_header_bytes(length, ty, flags, stream_id) + payload;
    assert((length / 65536 % 256) * 65536 + (length / 256 % 256) * 256 + length % 256 == length)
        by (bit_vector)
        requires
            length < 16777216,
    ;
    lemma_be31_value(stream_id);
    assert(d[0] == length / 65536 % 256 && d[1] == length / 256 % 256 && d[2] == length % 256);
    assert(d[3] == ty && d[4] == flags);
    assert(d[5] == stream_id / 16777216 % 128 && d[6] == stream_id / 65536 % 256 && d[7]
        == stream_id / 256 % 256 && d[8] == stream_id % 256);
}

proof fn lemma_be31_value(x: u32)
    ensures
        (x / 16777216 % 128) * 16777216 + (x / 65536 % 256) * 65536 + (x / 256 % 256) * 256 + x % 256
            == x % 2147483648,
{
    assert((x / 16777216 % 128) * 16777216 + (x / 65536 % 256) * 65536 + (x / 256 % 256) * 256 + x
        % 256 == x % 2147483648) by (bit_vector);
}

/// Round trip: a WINDOW_UPDATE payload built here reads back as the
/// increment without its reserved bit; an increment of zero is refused.
pub proof fn lemma_window_update_roundtrip(increment: u32)
    ensures
        spec_window_update(be31_bytes(increment)) == (if increment % 2147483648 == 0 {
            Err::<u32, H2Error>(H2Error::InvalidSettings)
        } else {
            Ok(increment % 2147483648)
        }),
{
    let d = be31_bytes(increment);
    lemma_be31_value(increment);
    assert(d[0] == increment / 16777216 % 128 && d[1] == increment / 65536 % 256 && d[2]
        == increment / 256 % 256 && d[3] == increment % 256);
}

/// The server's initial SETTINGS payload turns push off and keeps the
/// default frame size and window.
pub proof fn lemma_initial_settings_payload()
    ensures
        spec_parse_settings(seq![0u8, 2, 0, 0, 0, 0] + seq![0u8, 5, 0, 0, 64, 0] + seq![0u8, 4, 0, 0, 255, 255])
            == Ok::<Settings, H2Error>(Settings { enable_push: false, ..default_settings() }),
{
    let d = seq![0u8, 2, 0, 0, 0, 0] + seq![0u8, 5, 0, 0, 64, 0] + seq![0u8, 4, 0, 0, 255, 255];
    assert(d.len() == 18);
    assert(setting_id(d, 0) == 2 && setting_value(d, 0) == 0);
    assert(setting_id(d, 1) == 5 && setting_value(d, 1) == 16384);
    assert(setting_id(d, 2) == 4 && setting_value(d, 2) == 65535);
    reveal_with_fuel(settings_after, 4);
}

// ---------------------------------------------------------------------------
// Serving a connection: what each received frame calls for.

/// What to do after a frame.
#[derive(Debug, Clone, PartialEq, Eq)]
pub enum FrameReply {
    /// Nothing to send.
    Nothing,
    /// Send these bytes and go on.
    Send(Vec<u8>),
    /// A request's HEADERS: answer it.
    Request,
    /// Send these bytes and end the connection with an error.
    Fail(Vec<u8>),
    /// End the connection.
    Close,
}

pub enum FrameReplyView {
    Nothing,
    Send(Seq<u8>),
    Request,
    Fail(Seq<u8>),
    Close,
}

pub open spec fn reply_view(r: FrameReply) -> FrameReplyView {
    match r {
        FrameReply::Nothing => FrameReplyView::Nothing,
        FrameReply::Send(b) => FrameReplyView::Send(b@),
        FrameReply::Request => FrameReplyView::Request,
        FrameReply::Fail(b) => FrameReplyView::Fail(b@),
        FrameReply::Close => FrameReplyView::Close,
    }
}

/// The answer to a PING: the same payload with the ACK flag.
pub open spec fn ping_ack(payload: Seq<u8>) -> Seq<u8> {
    seq![0u8, 0, 8, 6, 1, 0, 0, 0, 0] + payload
}

/// What a received frame calls for and does to the connection: SETTINGS
/// (not an ACK) are taken when they parse and acknowledged; HEADERS start a
/// request; PING is answered; WINDOW_UPDATE grows the connection's or a
/// stream's window, a window past 2^31 - 1 failing the connection (for the
/// connection) or resetting the stream; GOAWAY ends the connection;
/// RST_STREAM closes the stream; anything else is ignored.
pub open spec fn frame_outcome(old: Connection, header: FrameHeader, payload: Seq<u8>, new: Connection, r: FrameReplyView) -> bool {
    match header.frame_type {
        FrameType::Settings => if header.flags & 1 != 0 {
            r == FrameReplyView::Nothing && new == old
        } else {
            r == FrameReplyView::Send(frame_header_bytes(0, 4, 1, 0)) && new == match spec_parse_settings(payload) {
                Ok(s) => Connection { peer_settings: s, ..old },
                Err(_) => old,
            }
        },
        FrameType::Headers => r == FrameReplyView::Request && new == old,
        FrameType::Ping => r == FrameReplyView::Send(ping_ack(payload)) && new == old,
        FrameType::WindowUpdate => match spec_window_update(payload) {
            Err(_) => r == FrameReplyView::Nothing && new == old,
            Ok(inc) => if header.stream_id == 0 {
                if old.connection_send_window + inc > i32::MAX {
                    r == FrameReplyView::Fail(frame_header_bytes(8, 7, 0, 0) + be31_bytes(0) + be32_bytes(3))
                        && new == old
                } else {
                    r == FrameReplyView::Nothing && new == Connection {
                        connection_send_window: (old.connection_send_window + inc) as i64,
                        ..old
                    }
                }
            } else {
                exists|res: Result<(), H2Error>|
                    #[trigger] stream_window_grown(old, new, header.stream_id, inc, res) && r == if res is Err {
                        FrameReplyView::Send(frame_header_bytes(4, 3, 0, header.stream_id) + be32_bytes(3))
                    } else {
                        FrameReplyView::Nothing
                    }
            },
        },
        FrameType::GoAway => r == FrameReplyView::Close && new == old,
        FrameType::RstStream => r == FrameReplyView::Nothing && stream_closed(old, new, header.stream_id),
        _ => r == FrameReplyView::Nothing && new == old,
    }
}

/// Handles one received frame other than a request's HEADERS, as
/// `frame_outcome` describes.
pub fn h2_on_frame(conn: &mut Connection, header: FrameHeader, payload: &[u8]) -> (r: FrameReply)
    requires
        old(conn).connection_send_window <= i32::MAX,
    ensures
        final(conn).connection_send_window <= i32::MAX,
        frame_outcome(*old(conn), header, payload@, *final(conn), reply_view(r)),
{
    match header.frame_type {
        FrameType::Settings => {
            if header.flags & 1 != 0 {
                FrameReply::Nothing
            } else {
                match parse_settings(payload) {
                    Ok(settings) => conn.update_peer_settings(settings),
                    Err(_) => {},
                }
                FrameReply::Send(build_settings_ack())
            }
        },
        FrameType::Headers => FrameReply::Request,
        FrameType::Ping => {
            let mut out: Vec<u8> = vec![0u8, 0, 8, 6, 1, 0, 0, 0, 0];
            append_bytes(&mut out, payload);
            FrameReply::Send(out)
        },
        FrameType::WindowUpdate => {
            match parse_window_update(payload) {
                Ok(increment) => {
                    if header.stream_id == 0 {
                        match conn.update_connection_send_window(increment) {
                            Ok(()) => FrameReply::Nothing,
                            Err(_) => FrameReply::Fail(build_goaway(0, H2ErrorCode::FlowControlError.code())),
                        }
                    } else {
                        let res = conn.update_stream_send_window(header.stream_id, increment);
                        match res {
                            Ok(()) => FrameReply::Nothing,
                            Err(_) => FrameReply::Send(
                                build_rst_stream(header.stream_id, H2ErrorCode::FlowControlError.code()),
                            ),
                        }
                    }
                },
                Err(_) => FrameReply::Nothing,
            }
        },
        FrameType::GoAway => FrameReply::Close,
        FrameType::RstStream => {
            conn.close_stream(header.stream_id);
            FrameReply::Nothing
        },
        _ => FrameReply::Nothing,
    }
}

// ---------------------------------------------------------------------------
// Header compression.

#[verifier::external_type_specification]
#[verifier::external_body]
pub struct ExHpackEncoder<'a>(hpack::Encoder<'a>);

#[verifier::external_type_specification]
#[verifier::external_body]
pub struct ExHpackDecoder<'a>(hpack::Decoder<'a>);

#[verifier::external_type_specification]
#[verifier::external_body]
pub struct ExHpackDecoderError(hpack::decoder::DecoderError);

/// The entries of an encoder's dynamic header table, name and value bytes.
pub uninterp spec fn encoder_table(e: hpack::Encoder<'static>) -> Seq<(Seq<u8>, Seq<u8>)>;

/// The size limit of an encoder's dynamic header table.
pub uninterp spec fn encoder_max_size(e: hpack::Encoder<'static>) -> nat;

/// The entries of a decoder's dynamic header table, name and value bytes.
pub uninterp spec fn decoder_table(d: hpack::Decoder<'static>) -> Seq<(Seq<u8>, Seq<u8>)>;

/// The size limit of a decoder's dynamic header table.
pub uninterp spec fn decoder_max_size(d: hpack::Decoder<'static>) -> nat;

/// What `Decoder::decode` gives for `block`, on a decoder whose dynamic
/// table holds `table` under the limit `max`: the header list, and the
/// table and limit it leaves; none where it fails (or does not return).
pub uninterp spec fn hpack_block(table: Seq<(Seq<u8>, Seq<u8>)>, max: nat, block: Seq<u8>) -> Option<
    (Seq<(Seq<u8>, Seq<u8>)>, Seq<(Seq<u8>, Seq<u8>)>, nat),
>;

/// What `Encoder::encode_header_into` writes for the header `name: value`,
/// on an encoder whose dynamic table holds `table` under the limit `max`,
/// and the table it leaves.
pub uninterp spec fn hpack_encoded(table: Seq<(Seq<u8>, Seq<u8>)>, max: nat, name: Seq<u8>, value: Seq<u8>) -> (
    Seq<u8>,
    Seq<(Seq<u8>, Seq<u8>)>,
);

/// `hpack::Encoder::new`: an encoder with the standard static table, an
/// empty dynamic table and the default limit of 4096 octets.
#[verifier::external_body]
fn hpack_encoder_new() -> (r: hpack::Encoder<'static>)
    ensures
        encoder_table(r).len() == 0,
        encoder_max_size(r) == 4096,
{
    hpack::Encoder::new()
}

/// `hpack::Decoder::new`: a decoder with the standard static table, an
/// empty dynamic table and the default limit of 4096 octets.
#[verifier::external_body]
fn hpack_decoder_new() -> (r: hpack::Decoder<'static>)
    ensures
        decoder_table(r).len() == 0,
        decoder_max_size(r) == 4096,
{
    hpack::Decoder::new()
}

/// `Encoder::encode_header_into` writing into a `Vec` (which does not
/// fail): what `hpack_encoded` names is appended to `buf` (at least one
/// byte), and the encoder's table becomes the one it names; the limit
/// stays. Trusted as well, from the two sources, for a name and value
/// shorter than 2^28 bytes (whose lengths the decoder reads back in its
/// five-octet integers): the appended representation (an indexed field, a
/// literal with an indexed name and no indexing, or a literal indexed into
/// the table, as the encoder picks) decodes, on a decoder holding the
/// encoder's table, to this one header and leaves the table the encoder is
/// left with; and after a block that decodes to a list and leaves the
/// encoder's old table, the longer block decodes to that list and this
/// header (the decoder reads one representation after another).
#[verifier::external_body]
fn hpack_encode_header(encoder: &mut hpack::Encoder<'static>, name: &[u8], value: &[u8], buf: &mut Vec<u8>)
    ensures
        final(buf)@ == old(buf)@ + hpack_encoded(
            encoder_table(*old(encoder)),
            encoder_max_size(*old(encoder)),
            name@,
            value@,
        ).0,
        final(buf)@.len() > old(buf)@.len(),
        encoder_table(*final(encoder)) == hpack_encoded(
            encoder_table(*old(encoder)),
            encoder_max_size(*old(encoder)),
            name@,
            value@,
        ).1,
        encoder_max_size(*final(encoder)) == encoder_max_size(*old(encoder)),
        name@.len() < 0x1000_0000 && value@.len() < 0x1000_0000 ==> hpack_block(
            encoder_table(*old(encoder)),
            encoder_max_size(*old(encoder)),
            final(buf)@.subrange(old(buf)@.len() as int, final(buf)@.len() as int),
        ) == Some((seq![(name@, value@)], encoder_table(*final(encoder)), encoder_max_size(*final(encoder)))),
        name@.len() < 0x1000_0000 && value@.len() < 0x1000_0000 ==> forall|t0: Seq<(Seq<u8>, Seq<u8>)>, m0: nat|
            (#[trigger] hpack_block(t0, m0, old(buf)@) is Some && hpack_block(t0, m0, old(buf)@)->Some_0.1
                == encoder_table(*old(encoder)) && hpack_block(t0, m0, old(buf)@)->Some_0.2 == encoder_max_size(
                *old(encoder),
            )) ==> hpack_block(t0, m0, final(buf)@) == Some(
                (
                    hpack_block(t0, m0, old(buf)@)->Some_0.0.push((name@, value@)),
                    encoder_table(*final(encoder)),
                    encoder_max_size(*final(encoder)),
                ),
            ),
{
    let _ = encoder.encode_header_into((name, value), buf);
}

/// The largest value of an HPACK integer's prefix of `p` bits.
pub open spec fn prefix_mask(p: nat) -> nat {
    if p == 4 {
        15
    } else if p == 5 {
        31
    } else if p == 6 {
        63
    } else {
        127
    }
}

/// Where the continuation octets of an HPACK integer end: the first octet
/// at or after `i` below 128, looked for up to the fifth octet of the
/// integer.
pub open spec fn cont_end(b: Seq<u8>, i: nat) -> Option<nat>
    decreases 5 - i,
{
    if i > 4 || i >= b.len() {
        None
    } else if b[i as int] < 128 {
        Some(i)
    } else {
        cont_end(b, i + 1)
    }
}

pub open spec fn pow128(n: nat) -> nat
    decreases n,
{
    if n == 0 {
        1
    } else {
        128 * pow128((n - 1) as nat)
    }
}

/// The value the continuation octets `1..=j` add.
pub open spec fn cont_sum(b: Seq<u8>, j: nat) -> nat
    decreases j,
{
    if j == 0 {
        0
    } else {
        cont_sum(b, (j - 1) as nat) + (b[j as int] % 128) as nat * pow128((j - 1) as nat)
    }
}

/// An HPACK integer with a `p`-bit prefix at the start of `b`, as the hpack
/// crate reads one (at most five octets): its value and how many octets it
/// takes, or none when it is unfinished or too long.
pub open spec fn hpack_int(b: Seq<u8>, p: nat) -> Option<(nat, nat)> {
    if b.len() == 0 {
        None
    } else {
        let m = prefix_mask(p);
        let v0 = (b[0] % ((m + 1) as u8)) as nat;
        if v0 < m {
            Some((v0, 1))
        } else {
            match cont_end(b, 1) {
                Some(j) => Some((m + cont_sum(b, j), j + 1)),
                None => None,
            }
        }
    }
}

/// How many octets an HPACK string literal at the start of `b` takes, when
/// its length fits in `b`.
pub open spec fn hpack_string(b: Seq<u8>) -> Option<nat> {
    match hpack_int(b, 7) {
        Some((len, c)) => if c + len <= b.len() {
            Some(c + len)
        } else {
            None
        },
        None => None,
    }
}

/// How many octets a literal header field with a `p`-bit index prefix at
/// the start of `b` takes: the index, then a name string when the index is
/// zero, then the value string.
pub open spec fn hpack_literal(b: Seq<u8>, p: nat) -> Option<nat> {
    match hpack_int(b, p) {
        None => None,
        Some((idx, c)) => {
            let name_end: Option<nat> = if idx == 0 {
                match hpack_string(b.subrange(c as int, b.len() as int)) {
                    Some(n) => Some(c + n),
                    None => None,
                }
            } else {
                Some(c)
            };
            match name_end {
                None => None,
                Some(c2) => match hpack_string(b.subrange(c2 as int, b.len() as int)) {
                    Some(n) => Some(c2 + n),
                    None => None,
                },
            }
        },
    }
}

/// Whether walking the representations of a header block, as the hpack
/// decoder does, reaches a dynamic table size update whose integer is
/// unfinished or too long: the decoder unwraps that integer and panics. A
/// walk that meets a representation which does not read stops there, as the
/// decoder then fails.
pub open spec fn size_update_unfinished(b: Seq<u8>) -> bool
    decreases b.len(),
{
    if b.len() == 0 {
        false
    } else {
        let o = b[0];
        let step: Option<nat> = if o >= 128 {
            match hpack_int(b, 7) {
                Some((_, c)) => Some(c),
                None => None,
            }
        } else if o >= 64 {
            hpack_literal(b, 6)
        } else if o >= 32 {
            match hpack_int(b, 5) {
                Some((_, c)) => Some(c),
                None => None,
            }
        } else {
            hpack_literal(b, 4)
        };
        if 32 <= o < 64 && step is None {
            true
        } else {
            match step {
                Some(c) => if 0 < c <= b.len() {
                    size_update_unfinished(b.subrange(c as int, b.len() as int))
                } else {
                    false
                },
                None => false,
            }
        }
    }
}

/// Reads the HPACK integer with a `p`-bit prefix at `start` (see
/// `hpack_int`).
fn read_hpack_int(b: &[u8], start: usize, p: usize) -> (r: Option<(usize, usize)>)
    requires
        start <= b.len(),
        4 <= p <= 7,
    ensures
        match r {
            Some((v, c)) => hpack_int(b@.subrange(start as int, b@.len() as int), p as nat) == Some((
                v as nat,
                c as nat,
            )),
            None => hpack_int(b@.subrange(start as int, b@.len() as int), p as nat) is None,
        },
        r matches Some((v, c)) ==> 1 <= c <= 5 && c <= b.len() - start && v < 0x1000_0000 + 128,
{
    let ghost t = b@.subrange(start as int, b@.len() as int);
    if start >= b.len() {
        return None;
    }
    let m: usize = if p == 4 {
        15
    } else if p == 5 {
        31
    } else if p == 6 {
        63
    } else {
        127
    };
    assert(m == prefix_mask(p as nat));
    assert(t[0] == b@[start as int]);
    let v0: usize = (b[start] % ((m + 1) as u8)) as usize;
    if v0 < m {
        return Some((v0, 1));
    }
    let mut i: usize = 1;
    let mut sum: usize = 0;
    let mut pw: usize = 1;
    while i <= 4 && i < b.len() - start && b[start + i] >= 128
        invariant
            1 <= i <= 5,
            start < b.len(),
            t == b@.subrange(start as int, b@.len() as int),
            cont_end(t, 1) == cont_end(t, i as nat),
            sum == cont_sum(t, (i - 1) as nat),
            pw == pow128((i - 1) as nat),
            i == 1 ==> pw == 1,
            i == 2 ==> pw == 128,
            i == 3 ==> pw == 16384,
            i == 4 ==> pw == 0x20_0000,
            i == 5 ==> pw == 0x1000_0000,
            sum < pw,
        decreases 5 - i,
    {
        assert(t[i as int] == b@[start + i]);
        let d = (b[start + i] % 128) as usize;
        proof {
            assert(sum + d * pw < pw * 128) by (nonlinear_arith)
                requires
                    sum < pw,
                    d <= 127,
            ;

        }
        sum = sum + d * pw;
        pw = pw * 128;
        i = i + 1;
    }
    if i > 4 || i >= b.len() - start {
        return None;
    }
    assert(t[i as int] == b@[start + i]);
    assert(cont_end(t, i as nat) == Some(i as nat));
    let d = (b[start + i] % 128) as usize;
    proof {
        assert(sum + d * pw < 0x1000_0000) by (nonlinear_arith)
            requires
                sum < pw,
                pw <= 0x20_0000,
                d <= 127,
        ;
    }
    let total = sum + d * pw;
    assert(total == cont_sum(t, i as nat));
    Some((m + total, i + 1))
}

/// Whether a header block reaches an unfinished dynamic table size update
/// (see `size_update_unfinished`), on which the hpack decoder panics.
pub fn has_unfinished_size_update(b: &[u8]) -> (r: bool)
    ensures
        r == size_update_unfinished(b@),
{
    let mut pos: usize = 0;
    assert(b@.subrange(0, b@.len() as int) =~= b@);
    while pos < b.len()
        invariant
            pos <= b.len(),
            size_update_unfinished(b@) == size_update_unfinished(b@.subrange(pos as int, b@.len() as int)),
        decreases b.len() - pos,
    {
        let ghost t = b@.subrange(pos as int, b@.len() as int);
        assert(t[0] == b@[pos as int]);
        let o = b[pos];
        let step: Option<usize> = if o >= 128 {
            match read_hpack_int(b, pos, 7) {
                Some((_, c)) => Some(c),
                None => None,
            }
        } else if o >= 64 {
            read_literal(b, pos, 6)
        } else if o >= 32 {
            match read_hpack_int(b, pos, 5) {
                Some((_, c)) => Some(c),
                None => None,
            }
        } else {
            read_literal(b, pos, 4)
        };
        if 32 <= o && o < 64 && step.is_none() {
            return true;
        }
        match step {
            Some(c) => {
                if c == 0 || c > b.len() - pos {
                    return false;
                }
                assert(t.subrange(c as int, t.len() as int) =~= b@.subrange(pos + c, b@.len() as int));
                pos = pos + c;
            },
            None => {
                return false;
            },
        }
    }
    false
}

/// Reads the length of the string literal at `start` (see `hpack_string`).
fn read_string(b: &[u8], start: usize) -> (r: Option<usize>)
    requires
        start <= b.len(),
    ensures
        match r {
            Some(n) => hpack_string(b@.subrange(start as int, b@.len() as int)) == Some(n as nat),
            None => hpack_string(b@.subrange(start as int, b@.len() as int)) is None,
        },
        r matches Some(n) ==> start + n <= b.len(),
{
    match read_hpack_int(b, start, 7) {
        Some((len, c)) => {
            if c + len <= b.len() - start {
                Some(c + len)
            } else {
                None
            }
        },
        None => None,
    }
}

/// Reads the length of the literal header field at `start` (see
/// `hpack_literal`).
fn read_literal(b: &[u8], start: usize, p: usize) -> (r: Option<usize>)
    requires
        start <= b.len(),
        4 <= p <= 7,
    ensures
        match r {
            Some(n) => hpack_literal(b@.subrange(start as int, b@.len() as int), p as nat) == Some(n as nat),
            None => hpack_literal(b@.subrange(start as int, b@.len() as int), p as nat) is None,
        },
{
    let ghost t = b@.subrange(start as int, b@.len() as int);
    let (idx, c) = match read_hpack_int(b, start, p) {
        Some(x) => x,
        None => {
            return None;
        },
    };
    if c > b.len() - start {
        return None;
    }
    assert(t.subrange(c as int, t.len() as int) =~= b@.subrange(start + c, b@.len() as int));
    let c2: usize = if idx == 0 {
        match read_string(b, start + c) {
            Some(n) => c + n,
            None => {
                return None;
            },
        }
    } else {
        c
    };
    assert(t.subrange(c2 as int, t.len() as int) =~= b@.subrange(start + c2, b@.len() as int));
    match read_string(b, start + c2) {
        Some(n) => Some(c2 + n),
        None => None,
    }
}

/// `Decoder::decode`: the header list of a block, or why it does not
/// decode, as `hpack_block` names it for the decoder's table and limit;
/// on success the decoder is left with the table and limit it names (after
/// a failure its table is not stated). The decoder unwraps the integer of a
/// dynamic table size update and panics where it is unfinished or too
/// long; such blocks are left out (see `size_update_unfinished`). An empty
/// block holds no representation: the decoding loop does not run, and it
/// gives no headers.
#[verifier::external_body]
fn hpack_decode(decoder: &mut hpack::Decoder<'static>, data: &[u8]) -> (r: Result<
    Vec<(Vec<u8>, Vec<u8>)>,
    hpack::decoder::DecoderError,
>)
    requires
        !size_update_unfinished(data@),
    ensures
        match hpack_block(decoder_table(*old(decoder)), decoder_max_size(*old(decoder)), data@) {
            Some((l, t2, m2)) => r matches Ok(v) && deep_header_list(v@) == l && decoder_table(*final(decoder)) == t2
                && decoder_max_size(*final(decoder)) == m2,
            None => r is Err,
        },
        r is Err ==> data@.len() > 0,
        r matches Ok(l) ==> data@.len() > 0 || l@.len() == 0,
{
    decoder.decode(data)
}

/// HPACK encoder for response headers.
pub struct HpackEncoder {
    encoder: hpack::Encoder<'static>,
}

/// The names and values of headers, as bytes.
pub open spec fn header_bytes(hs: Seq<(String, String)>) -> Seq<(Seq<u8>, Seq<u8>)> {
    hs.map_values(|p: (String, String)| (encode_utf8(p.0@), encode_utf8(p.1@)))
}

/// The block an encoder with `table` and `max` writes for `hs`, one
/// representation after another, and the table it is left with.
pub open spec fn encoded_block(table: Seq<(Seq<u8>, Seq<u8>)>, max: nat, hs: Seq<(Seq<u8>, Seq<u8>)>) -> (
    Seq<u8>,
    Seq<(Seq<u8>, Seq<u8>)>,
)
    decreases hs.len(),
{
    if hs.len() == 0 {
        (Seq::empty(), table)
    } else {
        let (b, t1) = encoded_block(table, max, hs.drop_last());
        let (b2, t2) = hpack_encoded(t1, max, hs.last().0, hs.last().1);
        (b + b2, t2)
    }
}

/// Every name and value is shorter than 2^28 bytes.
pub open spec fn headers_short(hs: Seq<(Seq<u8>, Seq<u8>)>) -> bool {
    forall|i: int| 0 <= i < hs.len() ==> (#[trigger] hs[i]).0.len() < 0x1000_0000 && hs[i].1.len() < 0x1000_0000
}

impl HpackEncoder {
    /// The entries of the encoder's dynamic table.
    pub closed spec fn table(&self) -> Seq<(Seq<u8>, Seq<u8>)> {
        encoder_table(self.encoder)
    }

    /// The size limit of the encoder's dynamic table.
    pub closed spec fn max_size(&self) -> nat {
        encoder_max_size(self.encoder)
    }

    /// A new encoder: an empty dynamic table with the protocol's default
    /// limit (the argument is not used, as in the protocol's default).
    pub fn new(max_table_size: u32) -> (r: Self)
        ensures
            r.table().len() == 0,
            r.max_size() == 4096,
    {
        HpackEncoder { encoder: hpack_encoder_new() }
    }

    /// The header block for `headers`, one representation after another.
    /// A decoder holding the same table reads it back as these headers,
    /// and is left with the same table as the encoder.
    pub fn encode_headers(&mut self, headers: &[(String, String)]) -> (r: Vec<u8>)
        ensures
            r@ == encoded_block(old(self).table(), old(self).max_size(), header_bytes(headers@)).0,
            final(self).table() == encoded_block(old(self).table(), old(self).max_size(), header_bytes(headers@)).1,
            final(self).max_size() == old(self).max_size(),
            r@.len() >= headers@.len(),
            headers@.len() > 0 && headers_short(header_bytes(headers@)) ==> hpack_block(
                old(self).table(),
                old(self).max_size(),
                r@,
            ) == Some((header_bytes(headers@), final(self).table(), final(self).max_size())),
    {
        let ghost t0 = self.table();
        let ghost m0 = self.max_size();
        let ghost hb = header_bytes(headers@);
        let mut buf: Vec<u8> = Vec::new();
        let mut i: usize = 0;
        assert(hb.take(0) =~= Seq::<(Seq<u8>, Seq<u8>)>::empty());
        while i < headers.len()
            invariant
                i <= headers.len(),
                hb == header_bytes(headers@),
                t0 == old(self).table(),
                m0 == old(self).max_size(),
                self.max_size() == m0,
                buf@.len() >= i,
                (buf@, self.table()) == encoded_block(t0, m0, hb.take(i as int)),
                i > 0 && headers_short(hb) ==> hpack_block(t0, m0, buf@) == Some((hb.take(i as int), self.table(), m0)),
            decreases headers.len() - i,
        {
            let name = headers[i].0.as_str().as_bytes();
            let value = headers[i].1.as_str().as_bytes();
            let ghost before = buf@;
            let ghost tb = self.table();
            proof {
                assert(hb.take(i + 1).drop_last() =~= hb.take(i as int));
                assert(hb.take(i + 1).last() == hb[i as int]);
                assert(hb[i as int] == (encode_utf8(headers@[i as int].0@), encode_utf8(headers@[i as int].1@)));
            }
            hpack_encode_header(&mut self.encoder, name, value, &mut buf);
            proof {
                if headers_short(hb) {
                    assert(hb[i as int].0.len() < 0x1000_0000 && hb[i as int].1.len() < 0x1000_0000);
                    if i == 0 {
                        assert(before.len() == 0);
                        assert(buf@.subrange(0, buf@.len() as int) =~= buf@);
                        assert(hb.take(1) =~= seq![hb[0]]);
                    } else {
                        assert(hpack_block(t0, m0, before) == Some((hb.take(i as int), tb, m0)));
                        assert(hb.take(i + 1) =~= hb.take(i as int).push(hb[i as int]));
                    }
                }
            }
            i = i + 1;
        }
        assert(hb.take(hb.len() as int) =~= hb);
        buf
    }
}

/// A header table: names with their values, each name once.
pub open spec fn header_names_distinct(t: Seq<(Seq<char>, Seq<char>)>) -> bool {
    forall|i: int, j: int| 0 <= i < j < t.len() ==> t[i].0 != t[j].0
}

/// `t` with `name` set to `value`: in place when the name is there, else
/// added at the end.
pub open spec fn upsert_header(t: Seq<(Seq<char>, Seq<char>)>, name: Seq<char>, value: Seq<char>) -> Seq<
    (Seq<char>, Seq<char>),
> {
    if exists|i: int| 0 <= i < t.len() && t[i].0 == name {
        let i = choose|i: int| 0 <= i < t.len() && t[i].0 == name;
        t.update(i, (name, value))
    } else {
        t.push((name, value))
    }
}

/// The decoded header list as a table: names and values read as text, a
/// later value for a name replacing an earlier one, names in the order they
/// first appear.
pub open spec fn header_table(list: Seq<(Seq<u8>, Seq<u8>)>) -> Seq<(Seq<char>, Seq<char>)>
    decreases list.len(),
{
    if list.len() == 0 {
        Seq::empty()
    } else {
        upsert_header(
            header_table(list.drop_last()),
            lossy_text(list.last().0),
            lossy_text(list.last().1),
        )
    }
}

pub open spec fn deep_header_list(list: Seq<(Vec<u8>, Vec<u8>)>) -> Seq<(Seq<u8>, Seq<u8>)> {
    list.map_values(|p: (Vec<u8>, Vec<u8>)| (p.0@, p.1@))
}

pub open spec fn header_table_view(t: Seq<(String, String)>) -> Seq<(Seq<char>, Seq<char>)> {
    t.map_values(|p: (String, String)| (p.0@, p.1@))
}

fn text_of_bytes(b: &[u8]) -> (r: String)
    ensures
        r@ == lossy_text(b@),
{
    decode_utf8_lossy(b)
}

/// The table of a decoded header list, as `header_table` describes.
pub fn headers_from_list(list: &Vec<(Vec<u8>, Vec<u8>)>) -> (r: Vec<(String, String)>)
    ensures
        header_table_view(r@) == header_table(deep_header_list(list@)),
        header_names_distinct(header_table_view(r@)),
{
    let mut out: Vec<(String, String)> = Vec::new();
    let mut i: usize = 0;
    while i < list.len()
        invariant
            i <= list.len(),
            header_table_view(out@) == header_table(deep_header_list(list@).take(i as int)),
            header_names_distinct(header_table_view(out@)),
        decreases list.len() - i,
    {
        let name = text_of_bytes(list[i].0.as_slice());
        let value = text_of_bytes(list[i].1.as_slice());
        let ghost before = header_table_view(out@);
        let ghost l = deep_header_list(list@);
        proof {
            assert(l.take(i + 1).drop_last() =~= l.take(i as int));
            assert(l.take(i + 1).last() == l[i as int]);
            assert(l[i as int] == (list@[i as int].0@, list@[i as int].1@));
        }
        let name_chars = chars_of(name.as_str());
        let mut found: Option<usize> = None;
        let mut j: usize = 0;
        while j < out.len()
            invariant
                j <= out.len(),
                before == header_table_view(out@),
                name_chars@ == name@,
                found matches Some(f) ==> f < out.len() && out@[f as int].0@ == name@,
                found is None ==> forall|k: int| 0 <= k < j ==> out@[k].0@ != name@,
            decreases out.len() - j,
        {
            if found.is_none() {
                let other = chars_of(out[j].0.as_str());
                if crate::text::chars_equal(&other, &name_chars) {
                    found = Some(j);
                }
            }
            j = j + 1;
        }
        match found {
            Some(f) => {
                proof {
                    assert(before[f as int].0 == name@);
                    let c = choose|k: int| 0 <= k < before.len() && before[k].0 == name@;
                    assert(c == f);
                }
                out.set(f, (name, value));
                proof {
                    assert(header_table_view(out@) =~= before.update(f as int, (name@, value@)));
                }
            },
            None => {
                proof {
                    assert forall|k: int| 0 <= k < before.len() implies before[k].0 != name@ by {
                        assert(before[k] == (out@[k].0@, out@[k].1@));
                    }
                }
                out.push((name, value));
                proof {
                    assert(header_table_view(out@) =~= before.push((name@, value@)));
                }
            },
        }
        i = i + 1;
    }
    proof {
        assert(deep_header_list(list@).take(list@.len() as int) =~= deep_header_list(list@));
    }
    out
}

/// HPACK decoder for request headers.
pub struct HpackDecoder {
    decoder: hpack::Decoder<'static>,
}

impl HpackDecoder {
    /// The entries of the decoder's dynamic table.
    pub closed spec fn table(&self) -> Seq<(Seq<u8>, Seq<u8>)> {
        decoder_table(self.decoder)
    }

    /// The size limit of the decoder's dynamic table.
    pub closed spec fn max_size(&self) -> nat {
        decoder_max_size(self.decoder)
    }

    /// A new decoder: an empty dynamic table with the protocol's default
    /// limit (the argument is not used, as in the protocol's default).
    pub fn new(max_table_size: u32) -> (r: Self)
        ensures
            r.table().len() == 0,
            r.max_size() == 4096,
    {
        HpackDecoder { decoder: hpack_decoder_new() }
    }

    /// The headers of a block as a table (see `headers_from_list`) of the
    /// list the decoder reads from it, the decoder moving on to the table
    /// it is left with; `InvalidSettings` when the block does not decode.
    /// An empty block gives an empty table. A block on which the decoder
    /// panics is left out; `has_unfinished_size_update` tells it.
    pub fn decode_headers(&mut self, data: &[u8]) -> (r: Result<Vec<(String, String)>, H2Error>)
        requires
            !size_update_unfinished(data@),
        ensures
            match hpack_block(old(self).table(), old(self).max_size(), data@) {
                Some((l, t2, m2)) => r matches Ok(t) && header_table_view(t@) == header_table(l)
                    && final(self).table() == t2 && final(self).max_size() == m2,
                None => r == Err::<Vec<(String, String)>, H2Error>(H2Error::InvalidSettings),
            },
            r matches Ok(t) ==> header_names_distinct(header_table_view(t@)),
            data@.len() == 0 ==> (r matches Ok(t) && t@.len() == 0),
    {
        match hpack_decode(&mut self.decoder, data) {
            Ok(list) => {
                let t = headers_from_list(&list);
                proof {
                    if data@.len() == 0 {
                        assert(deep_header_list(list@) =~= Seq::<(Seq<u8>, Seq<u8>)>::empty());
                        assert(header_table_view(t@).len() == t@.len());
                    }
                }
                Ok(t)
            },
            Err(_) => Err(H2Error::InvalidSettings),
        }
    }
}

} // verus!


//! The client's shared state (the parts that are not floating point) and
//! how settings reported by the phone update it.

use vstd::prelude::*;
use vstd::string::StringSliceAdditionalSpecFns;
use vstd::utf8::encode_utf8;
use crate::text::{
    decimal_text, find_byte, first_match, is_digit, lemma_decimal_text_digits,
    lemma_first_match_unique, lemma_parse_decimal_text, matches_at, parse_unsigned,
    parse_unsigned_at, split_by,
};

verus! {

broadcast use vstd::string::group_string_axioms;

/// The default phone address: the local end of the ADB port forward.
pub const DEFAULT_PHONE_IP: &'static str = "127.0.0.1";

/// The default Wi-Fi address to fall back to.
pub const DEFAULT_WIFI_IP: &'static str = "192.168.1.100";

/// The port of the phone's HTTP server (MJPEG stream, settings, control
/// WebSocket).
pub const HTTP_PORT: u16 = 8080;

/// The port of the phone's RTSP server.
pub const RTSP_PORT: u16 = 8554;

/// How the phone is reached.
#[derive(Clone, Copy, Debug, PartialEq, Eq, Structural)]
pub enum ConnectionMode {
    /// Through an ADB port forward over USB, at the local address.
    Usb,
    /// Over the network, at the phone's Wi-Fi address.
    Wifi,
}

/// What the desktop client knows and wants of the phone, shared between the
/// UI, the control link and the stream.
#[derive(Clone, Debug)]
pub struct ClientState {
    pub phone_ip: String,
    pub wifi_ip: String,
    pub auto_fallback: bool,
    pub connection_mode: ConnectionMode,
    pub connected: bool,
    pub virtual_cam_active: bool,
    pub camera: String,
    pub resolution: String,
    pub codec: String,
    pub rotation: String,
    pub supported_resolutions: Vec<String>,
    pub flash_enabled: bool,
    pub has_flash: bool,
    pub exposure: i32,
    pub frames_sent: u64,
    pub source_w: u32,
    pub source_h: u32,
    /// The settings command queued for the phone, as a query string
    /// (`key=value&key=value`).
    pub pending_command: Option<Vec<u8>>,
}

/// The text views of a list of strings.
pub open spec fn string_views(v: Seq<String>) -> Seq<Seq<char>> {
    v.map_values(|s: String| s@)
}

/// The state at start-up.
pub open spec fn is_initial_state(s: ClientState) -> bool {
    &&& s.phone_ip@ == DEFAULT_PHONE_IP@
    &&& s.wifi_ip@ == DEFAULT_WIFI_IP@
    &&& s.auto_fallback
    &&& s.connection_mode == ConnectionMode::Usb
    &&& !s.connected
    &&& !s.virtual_cam_active
    &&& s.camera@ == "back"@
    &&& s.resolution@ == "1280x720"@
    &&& s.codec@ == "rtsp"@
    &&& s.rotation@ == "auto"@
    &&& string_views(s.supported_resolutions@) == seq![
        "3840x2160"@,
        "2560x1440"@,
        "1920x1080"@,
        "1280x720"@,
        "640x480"@,
    ]
    &&& !s.flash_enabled
    &&& s.has_flash
    &&& s.exposure == 0
    &&& s.frames_sent == 0
    &&& s.source_w == 1280
    &&& s.source_h == 720
    &&& s.pending_command is None
}

impl Default for ClientState {
    fn default() -> (r: Self)
        ensures
            is_initial_state(r),
    {
        let mut res: Vec<String> = Vec::new();
        res.push("3840x2160".to_string());
        res.push("2560x1440".to_string());
        res.push("1920x1080".to_string());
        res.push("1280x720".to_string());
        res.push("640x480".to_string());
        let r = ClientState {
            phone_ip: DEFAULT_PHONE_IP.to_string(),
            wifi_ip: DEFAULT_WIFI_IP.to_string(),
            auto_fallback: true,
            connection_mode: ConnectionMode::Usb,
            connected: false,
            virtual_cam_active: false,
            camera: "back".to_string(),
            resolution: "1280x720".to_string(),
            codec: "rtsp".to_string(),
            rotation: "auto".to_string(),
            supported_resolutions: res,
            flash_enabled: false,
            has_flash: true,
            exposure: 0,
            frames_sent: 0,
            source_w: 1280,
            source_h: 720,
            pending_command: None,
        };
        assert(string_views(r.supported_resolutions@) =~= seq![
            "3840x2160"@,
            "2560x1440"@,
            "1920x1080"@,
            "1280x720"@,
            "640x480"@,
        ]);
        r
    }
}

// ---------------------------------------------------------------------------
// Settings reported by the phone
// ---------------------------------------------------------------------------

/// The settings the phone reports (over the control WebSocket or its
/// `/settings` endpoint), less the zoom factor, which is floating point and
/// stays with the caller.
#[derive(Clone, Debug)]
pub struct DeviceSettings {
    pub camera: String,
    pub resolution_str: String,
    pub stream_protocol: String,
    pub rotation: String,
    pub supported_resolutions: Vec<String>,
    pub flash: bool,
    pub has_flash_unit: bool,
    pub exposure_index: i32,
}

/// What `str::to_lowercase` makes of a text (full Unicode case mapping).
pub uninterp spec fn unicode_lowercase(s: Seq<char>) -> Seq<char>;

/// ASCII lower-casing of one character: `A`..=`Z` become `a`..=`z`, any
/// other character stays.
pub open spec fn ascii_lower_char(c: char) -> char {
    if 'A' <= c <= 'Z' {
        ((c as u32) + 32) as char
    } else {
        c
    }
}

/// ASCII lower-casing of a text, character by character.
pub open spec fn ascii_lowercase(s: Seq<char>) -> Seq<char> {
    s.map_values(|c: char| ascii_lower_char(c))
}

/// Lower-cases a text with `str::to_lowercase`. The result is named by
/// `unicode_lowercase`; on ASCII text, where the Unicode lower-case mapping
/// of each character is its ASCII one (`char::to_lowercase`), every
/// `A`..=`Z` becomes `a`..=`z` and everything else stays.
#[verifier::external_body]
fn to_lowercase(s: &str) -> (r: String)
    ensures
        r@ == unicode_lowercase(s@),
        vstd::utf8::is_ascii_chars(s@) ==> r@ == ascii_lowercase(s@),
{
    s.to_lowercase()
}

/// A resolution text `<width>x<height>` read as two `u32`s: exactly two
/// pieces around `x`, each a number as `u32::from_str` reads it.
pub open spec fn resolution_spec(s: Seq<u8>) -> Option<(u32, u32)> {
    let parts = split_by(s, 120);
    if parts.len() == 2 {
        match (parse_unsigned(parts[0], u32::MAX as nat), parse_unsigned(parts[1], u32::MAX as nat)) {
            (Some(w), Some(h)) => Some((w as u32, h as u32)),
            _ => None,
        }
    } else {
        None
    }
}

/// Reads a resolution text such as `1920x1080`.
pub fn parse_resolution(s: &str) -> (r: Option<(u32, u32)>)
    ensures
        r == resolution_spec(s.spec_bytes()),
{
    let b = s.as_bytes();
    let ghost t = b@;
    assert(b@.subrange(0, b@.len() as int) =~= t);
    let x = match find_byte(b, 0, b.len(), 120) {
        Some(i) => i,
        None => {
            assert(split_by(t, 120) =~= seq![t]);
            return None;
        },
    };
    assert(t.skip(x + 1) =~= b@.subrange(x + 1, b@.len() as int));
    assert(split_by(t, 120) =~= seq![t.take(x as int)] + split_by(t.skip(x + 1), 120));
    if let Some(j) = find_byte(b, x + 1, b.len(), 120) {
        let ghost u = t.skip(x + 1);
        assert(u =~= b@.subrange(x + 1, b@.len() as int));
        assert(first_match(u, seq![120u8]) == Some(j - x - 1));
        let ghost v = u.skip(j - x);
        assert(split_by(v, 120).len() >= 1);
        assert(split_by(u, 120) =~= seq![u.take(j - x - 1)] + split_by(v, 120));
        return None;
    }
    assert(split_by(t.skip(x + 1), 120) =~= seq![t.skip(x + 1)]);
    assert(t.take(x as int) =~= b@.subrange(0, x as int));
    let w = parse_unsigned_at(b, 0, x, u32::MAX as u64);
    let h = parse_unsigned_at(b, x + 1, b.len(), u32::MAX as u64);
    match (w, h) {
        (Some(w), Some(h)) => Some((w as u32, h as u32)),
        _ => None,
    }
}

/// What taking reported settings does to the state: the phone counts as
/// connected, the camera, resolution, flash and exposure are taken as
/// reported, protocol and rotation lower-cased (ASCII text by its ASCII
/// mapping); a non-empty list of
/// supported resolutions replaces the known one, and a resolution that
/// reads as `<width>x<height>` becomes the source size. Everything else
/// stays.
pub open spec fn settings_applied(old: ClientState, new: ClientState, settings: DeviceSettings) -> bool {
    &&& new.connected
    &&& new.camera@ == settings.camera@
    &&& new.resolution@ == settings.resolution_str@
    &&& new.codec@ == unicode_lowercase(settings.stream_protocol@)
    &&& new.rotation@ == unicode_lowercase(settings.rotation@)
    &&& vstd::utf8::is_ascii_chars(settings.stream_protocol@) ==> new.codec@ == ascii_lowercase(
        settings.stream_protocol@,
    )
    &&& vstd::utf8::is_ascii_chars(settings.rotation@) ==> new.rotation@ == ascii_lowercase(
        settings.rotation@,
    )
    &&& new.flash_enabled == settings.flash
    &&& new.has_flash == settings.has_flash_unit
    &&& new.exposure == settings.exposure_index
    &&& new.supported_resolutions@ == if settings.supported_resolutions@.len() > 0 {
        settings.supported_resolutions@
    } else {
        old.supported_resolutions@
    }
    &&& (new.source_w, new.source_h) == match resolution_spec(encode_utf8(settings.resolution_str@)) {
        Some(dims) => dims,
        None => (old.source_w, old.source_h),
    }
    &&& new.phone_ip == old.phone_ip
    &&& new.wifi_ip == old.wifi_ip
    &&& new.auto_fallback == old.auto_fallback
    &&& new.connection_mode == old.connection_mode
    &&& new.virtual_cam_active == old.virtual_cam_active
    &&& new.frames_sent == old.frames_sent
    &&& new.pending_command == old.pending_command
}

/// Takes the settings the phone reported.
pub fn apply_settings(s: &mut ClientState, settings: DeviceSettings)
    ensures
        settings_applied(*old(s), *final(s), settings),
{
    let dims = parse_resolution(settings.resolution_str.as_str());
    s.connected = true;
    s.codec = to_lowercase(settings.stream_protocol.as_str());
    s.rotation = to_lowercase(settings.rotation.as_str());
    s.resolution = settings.resolution_str;
    s.camera = settings.camera;
    s.flash_enabled = settings.flash;
    s.has_flash = settings.has_flash_unit;
    s.exposure = settings.exposure_index;
    if settings.supported_resolutions.len() > 0 {
        s.supported_resolutions = settings.supported_resolutions;
    }
    if let Some((w, h)) = dims {
        s.source_w = w;
        s.source_h = h;
    }
}

/// A resolution written as `<width>x<height>` in decimal reads back as
/// that width and height.
pub proof fn lemma_resolution_roundtrip(w: u32, h: u32)
    ensures
        resolution_spec(decimal_text(w as nat) + seq![120u8] + decimal_text(h as nat)) == Some(
            (w, h),
        ),
{
    let dw = decimal_text(w as nat);
    let dh = decimal_text(h as nat);
    let s = dw + seq![120u8] + dh;
    lemma_decimal_text_digits(w as nat);
    lemma_decimal_text_digits(h as nat);
    lemma_parse_decimal_text(w as nat, u32::MAX as nat);
    lemma_parse_decimal_text(h as nat, u32::MAX as nat);
    let k = dw.len() as int;
    assert(s.subrange(k, k + 1) =~= seq![120u8]);
    assert forall|j: int| 0 <= j < k implies !matches_at(s, seq![120u8], j) by {
        assert(s.subrange(j, j + 1)[0] == dw[j]);
        assert(is_digit(dw[j]));
    }
    lemma_first_match_unique(s, seq![120u8], k);
    assert(s.take(k) =~= dw);
    assert(s.skip(k + 1) =~= dh);
    assert forall|j: int| !matches_at(dh, seq![120u8], j) by {
        if 0 <= j < dh.len() {
            assert(dh.subrange(j, j + 1)[0] == dh[j]);
            assert(is_digit(dh[j]));
        }
    }
    assert(split_by(dh, 120) =~= seq![dh]);
    assert(split_by(s, 120) =~= seq![dw, dh]);
}

} // verus!

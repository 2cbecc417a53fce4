//! What the control panel does to the shared state: the choice between USB
//! and Wi-Fi, the addresses typed in, and the settings commands it queues
//! for the phone.

use vstd::prelude::*;
use vstd::string::StringSliceAdditionalSpecFns;
use crate::bytes::append_bytes;
use crate::command::{is_decimal_key, is_int_key, is_text_key, query_field, query_fields, query_fields_of, FieldValue};
use crate::link::{protocol_codec, string_bytes, StreamProtocol};
use crate::state::{ClientState, ConnectionMode, DEFAULT_PHONE_IP};
use crate::text::{
    decimal_text, first_match, lemma_decimal_text_digits, lemma_first_match_none, lemma_first_match_unique,
    lemma_parse_signed_decimal_text, matches_at, push_signed_decimal, signed_decimal_text,
    split_by, trim, trim_str,
};

verus! {

broadcast use vstd::string::group_string_axioms;

/// The panel's own state: the connection chosen on it, the address typed
/// in for Wi-Fi, and the status line shown under them.
pub struct ControlPanel {
    pub mode: ConnectionMode,
    pub phone_ip_input: String,
    pub status_msg: String,
}

impl ControlPanel {
    /// The panel at start-up: USB, the local address, ready.
    pub fn new() -> (r: Self)
        ensures
            r.mode == ConnectionMode::Usb,
            r.phone_ip_input@ == DEFAULT_PHONE_IP@,
            r.status_msg@ == "Ready (USB Mode)"@,
    {
        ControlPanel {
            mode: ConnectionMode::Usb,
            phone_ip_input: DEFAULT_PHONE_IP.to_string(),
            status_msg: "Ready (USB Mode)".to_string(),
        }
    }

    /// USB chosen: the panel and the state switch to USB at the local end
    /// of the ADB forward. (The caller then renews the forward and shows
    /// its outcome in the status line.)
    pub fn select_usb(&mut self, s: &mut ClientState)
        ensures
            final(self).mode == ConnectionMode::Usb,
            final(self).phone_ip_input@ == DEFAULT_PHONE_IP@,
            final(self).status_msg == old(self).status_msg,
            final(s).phone_ip@ == DEFAULT_PHONE_IP@,
            *final(s) == (ClientState {
                phone_ip: final(s).phone_ip,
                connection_mode: ConnectionMode::Usb,
                ..*old(s)
            }),
    {
        self.mode = ConnectionMode::Usb;
        self.phone_ip_input = DEFAULT_PHONE_IP.to_string();
        s.phone_ip = DEFAULT_PHONE_IP.to_string();
        s.connection_mode = ConnectionMode::Usb;
    }

    /// Wi-Fi chosen: the state switches to Wi-Fi at the typed address;
    /// where that still is the local address, the Wi-Fi address is put in
    /// its place first.
    pub fn select_wifi(&mut self, s: &mut ClientState)
        ensures
            final(self).mode == ConnectionMode::Wifi,
            final(self).phone_ip_input@ == if old(self).phone_ip_input@ == DEFAULT_PHONE_IP@ {
                old(s).wifi_ip@
            } else {
                old(self).phone_ip_input@
            },
            final(self).status_msg == old(self).status_msg,
            final(s).phone_ip@ == final(self).phone_ip_input@,
            *final(s) == (ClientState {
                phone_ip: final(s).phone_ip,
                connection_mode: ConnectionMode::Wifi,
                ..*old(s)
            }),
    {
        self.mode = ConnectionMode::Wifi;
        s.connection_mode = ConnectionMode::Wifi;
        let local = DEFAULT_PHONE_IP.to_string();
        if self.phone_ip_input == local {
            self.phone_ip_input = s.wifi_ip.clone();
        }
        s.phone_ip = self.phone_ip_input.clone();
    }

    /// Connect pressed (Wi-Fi mode): the typed address, trimmed, becomes
    /// both the phone's address and the Wi-Fi address, and the status line
    /// says so.
    pub fn connect(&mut self, s: &mut ClientState)
        ensures
            string_bytes(final(s).phone_ip) == trim(string_bytes(old(self).phone_ip_input)),
            final(s).wifi_ip@ == final(s).phone_ip@,
            string_bytes(final(self).status_msg) == "Connecting to ".spec_bytes() + trim(
                string_bytes(old(self).phone_ip_input),
            ),
            final(self).mode == old(self).mode,
            final(self).phone_ip_input == old(self).phone_ip_input,
            *final(s) == (ClientState {
                phone_ip: final(s).phone_ip,
                wifi_ip: final(s).wifi_ip,
                ..*old(s)
            }),
    {
        let clean = trim_str(self.phone_ip_input.as_str());
        s.phone_ip = clean.to_string();
        s.wifi_ip = clean.to_string();
        let mut msg = "Connecting to ".to_string();
        msg.append(clean);
        proof {
            lemma_encode_utf8_concat("Connecting to "@, clean@);
        }
        self.status_msg = msg;
    }
}

/// The fallback address edited: it is stored trimmed.
pub fn set_fallback_ip(s: &mut ClientState, text: &str)
    ensures
        string_bytes(final(s).wifi_ip) == trim(text.spec_bytes()),
        *final(s) == (ClientState { wifi_ip: final(s).wifi_ip, ..*old(s) }),
{
    s.wifi_ip = trim_str(text).to_string();
}

/// The UTF-8 encoding of two texts one after the other is that of each,
/// one after the other.
proof fn lemma_encode_utf8_concat(a: Seq<char>, b: Seq<char>)
    ensures
        vstd::utf8::encode_utf8(a + b) == vstd::utf8::encode_utf8(a) + vstd::utf8::encode_utf8(b),
    decreases a.len(),
{
    if a.len() > 0 {
        lemma_encode_utf8_concat(a.drop_first(), b);
        assert((a + b).drop_first() =~= a.drop_first() + b);
        assert((a + b)[0] == a[0]);
    } else {
        assert(a + b =~= b);
    }
}

// ---------------------------------------------------------------------------
// Settings commands
// ---------------------------------------------------------------------------

/// The query string that sets one setting: `key=value`.
pub open spec fn command_text(key: Seq<u8>, value: Seq<u8>) -> Seq<u8> {
    key + seq![61u8] + value
}

/// The value text of an on/off setting.
pub open spec fn flag_text(on: bool) -> Seq<u8> {
    if on {
        "true".spec_bytes()
    } else {
        "false".spec_bytes()
    }
}

/// Queues `key=value` for the phone.
fn queue_command(s: &mut ClientState, key: &str, value: &[u8])
    ensures
        final(s).pending_command matches Some(c) && c@ == command_text(key.spec_bytes(), value@),
        *final(s) == (ClientState { pending_command: final(s).pending_command, ..*old(s) }),
{
    let mut c: Vec<u8> = Vec::new();
    append_bytes(&mut c, key.as_bytes());
    c.push(61u8);
    append_bytes(&mut c, value);
    assert(c@ =~= command_text(key.spec_bytes(), value@));
    s.pending_command = Some(c);
}

/// A camera chosen (`back` or `front`): queued unless it is the one the
/// panel shows (`shown`, the state as read when the panel was drawn).
/// Returns whether a command was queued.
pub fn request_camera(s: &mut ClientState, shown: &ClientState, camera: &str) -> (queued: bool)
    ensures
        queued == (shown.camera@ != camera@),
        queued ==> (final(s).pending_command matches Some(c) && c@ == command_text(
            "camera".spec_bytes(),
            camera.spec_bytes(),
        )),
        *final(s) == (ClientState { pending_command: final(s).pending_command, ..*old(s) }),
        !queued ==> *final(s) == *old(s),
{
    let wanted = camera.to_string();
    if shown.camera == wanted {
        return false;
    }
    queue_command(s, "camera", camera.as_bytes());
    true
}

/// A resolution chosen from the supported ones: queued unless it is the
/// one the panel shows (`shown`). Returns whether a command was queued.
pub fn request_resolution(s: &mut ClientState, shown: &ClientState, resolution: &str) -> (queued: bool)
    ensures
        queued == (shown.resolution@ != resolution@),
        queued ==> (final(s).pending_command matches Some(c) && c@ == command_text(
            "resolution_str".spec_bytes(),
            resolution.spec_bytes(),
        )),
        *final(s) == (ClientState { pending_command: final(s).pending_command, ..*old(s) }),
        !queued ==> *final(s) == *old(s),
{
    let wanted = resolution.to_string();
    if shown.resolution == wanted {
        return false;
    }
    queue_command(s, "resolution_str", resolution.as_bytes());
    true
}

/// A rotation mode chosen (`auto`, `0`, `90`, `180` or `270`): queued
/// unless it is the one the panel shows (`shown`). Returns whether a
/// command was queued.
pub fn request_rotation(s: &mut ClientState, shown: &ClientState, rotation: &str) -> (queued: bool)
    ensures
        queued == (shown.rotation@ != rotation@),
        queued ==> (final(s).pending_command matches Some(c) && c@ == command_text(
            "rotation".spec_bytes(),
            rotation.spec_bytes(),
        )),
        *final(s) == (ClientState { pending_command: final(s).pending_command, ..*old(s) }),
        !queued ==> *final(s) == *old(s),
{
    let wanted = rotation.to_string();
    if shown.rotation == wanted {
        return false;
    }
    queue_command(s, "rotation", rotation.as_bytes());
    true
}

/// The exposure index moved: it is taken at once and queued.
pub fn request_exposure(s: &mut ClientState, exposure: i32)
    ensures
        final(s).exposure == exposure,
        final(s).pending_command matches Some(c) && c@ == command_text(
            "exposure_index".spec_bytes(),
            signed_decimal_text(exposure as int),
        ),
        *final(s) == (ClientState {
            exposure: final(s).exposure,
            pending_command: final(s).pending_command,
            ..*old(s)
        }),
{
    s.exposure = exposure;
    let mut v: Vec<u8> = Vec::new();
    push_signed_decimal(&mut v, exposure as i64);
    assert(v@ =~= signed_decimal_text(exposure as int));
    queue_command(s, "exposure_index", v.as_slice());
}

/// The flashlight button: queues the opposite of the current setting.
pub fn request_flash_toggle(s: &mut ClientState)
    ensures
        final(s).pending_command matches Some(c) && c@ == command_text(
            "flash".spec_bytes(),
            flag_text(!old(s).flash_enabled),
        ),
        *final(s) == (ClientState { pending_command: final(s).pending_command, ..*old(s) }),
{
    if s.flash_enabled {
        queue_command(s, "flash", "false".as_bytes());
    } else {
        queue_command(s, "flash", "true".as_bytes());
    }
}

/// A stream protocol chosen: taken at once as the codec setting and
/// queued.
pub fn request_protocol(s: &mut ClientState, protocol: StreamProtocol)
    ensures
        string_bytes(final(s).codec) == protocol_codec(protocol),
        final(s).pending_command matches Some(c) && c@ == command_text(
            "stream_protocol".spec_bytes(),
            protocol_codec(protocol),
        ),
        *final(s) == (ClientState {
            codec: final(s).codec,
            pending_command: final(s).pending_command,
            ..*old(s)
        }),
{
    let name = match protocol {
        StreamProtocol::Rtsp => "rtsp",
        StreamProtocol::Mjpeg => "mjpeg",
    };
    s.codec = name.to_string();
    queue_command(s, "stream_protocol", name.as_bytes());
}

// ---------------------------------------------------------------------------
// What the phone is sent
// ---------------------------------------------------------------------------

/// `b` does not occur in `s`.
pub open spec fn lacks_byte(s: Seq<u8>, b: u8) -> bool {
    forall|i: int| 0 <= i < s.len() ==> s[i] != b
}

/// A command for one setting is a single query piece whose key ends at
/// its first `=`, when the key holds neither `=` nor `&` and the value
/// holds no `&`.
proof fn lemma_single_piece(key: Seq<u8>, value: Seq<u8>)
    requires
        lacks_byte(key, 61),
        lacks_byte(key, 38),
        lacks_byte(value, 38),
    ensures
        query_fields(command_text(key, value)) == match query_field(command_text(key, value)) {
            Some(f) => seq![f],
            None => Seq::<(Seq<u8>, FieldValue)>::empty(),
        },
        first_match(command_text(key, value), seq![61u8]) == Some(key.len() as int),
        command_text(key, value).take(key.len() as int) == key,
        command_text(key, value).skip(key.len() as int + 1) == value,
{
    let c = command_text(key, value);
    let k = key.len() as int;
    assert forall|j: int| !matches_at(c, seq![38u8], j) by {
        if 0 <= j < c.len() {
            assert(c.subrange(j, j + 1)[0] == c[j]);
            if j < k {
                assert(c[j] == key[j]);
            } else if j > k {
                assert(c[j] == value[j - k - 1]);
            }
        }
    }
    lemma_first_match_none(c, seq![38u8]);
    assert(split_by(c, 38) == seq![c]);
    assert(c.subrange(k, k + 1) =~= seq![61u8]);
    assert forall|j: int| 0 <= j < k implies !matches_at(c, seq![61u8], j) by {
        assert(c.subrange(j, j + 1)[0] == c[j]);
        assert(c[j] == key[j]);
    }
    lemma_first_match_unique(c, seq![61u8], k);
    assert(c.take(k) =~= key);
    assert(c.skip(k + 1) =~= value);
    assert(seq![c].skip(1) =~= Seq::<Seq<u8>>::empty());
    assert(query_fields_of(Seq::<Seq<u8>>::empty()) =~= Seq::<(Seq<u8>, FieldValue)>::empty());
    let f = match query_field(c) {
        Some(f) => seq![f],
        None => Seq::<(Seq<u8>, FieldValue)>::empty(),
    };
    assert(query_fields_of(seq![c]) =~= f + query_fields_of(seq![c].skip(1)));
    assert(f + Seq::<(Seq<u8>, FieldValue)>::empty() =~= f);
}

/// The keys of the text settings hold neither `=` nor `&`.
proof fn lemma_text_keys_plain(key: Seq<u8>)
    requires
        is_text_key(key),
    ensures
        lacks_byte(key, 61),
        lacks_byte(key, 38),
{
    reveal_strlit("camera");
    reveal_strlit("resolution_str");
    reveal_strlit("stream_protocol");
    reveal_strlit("rotation");
    vstd::string::is_ascii_spec_bytes("camera");
    vstd::string::is_ascii_spec_bytes("resolution_str");
    vstd::string::is_ascii_spec_bytes("stream_protocol");
    vstd::string::is_ascii_spec_bytes("rotation");
}

/// A queued text setting (camera, resolution, rotation, stream protocol)
/// reaches the phone as exactly that one text field, when its value holds
/// no `&`.
pub proof fn lemma_text_command_reads_back(key: Seq<u8>, value: Seq<u8>)
    requires
        is_text_key(key),
        lacks_byte(value, 38),
    ensures
        query_fields(command_text(key, value)) == seq![(key, FieldValue::Text(value))],
{
    lemma_text_keys_plain(key);
    lemma_single_piece(key, value);
}

/// A queued exposure index reaches the phone as exactly that integer
/// field.
pub proof fn lemma_exposure_command_reads_back(exposure: i32)
    ensures
        query_fields(command_text("exposure_index".spec_bytes(), signed_decimal_text(exposure as int)))
            == seq![("exposure_index".spec_bytes(), FieldValue::Int(exposure as int))],
{
    let key = "exposure_index".spec_bytes();
    let v = signed_decimal_text(exposure as int);
    reveal_strlit("exposure_index");
    vstd::string::is_ascii_spec_bytes("exposure_index");
    reveal_strlit("camera");
    reveal_strlit("resolution_str");
    reveal_strlit("stream_protocol");
    reveal_strlit("rotation");
    reveal_strlit("flash");
    reveal_strlit("zoom");
    reveal_strlit("focus_distance");
    vstd::string::is_ascii_spec_bytes("camera");
    vstd::string::is_ascii_spec_bytes("resolution_str");
    vstd::string::is_ascii_spec_bytes("stream_protocol");
    vstd::string::is_ascii_spec_bytes("rotation");
    vstd::string::is_ascii_spec_bytes("flash");
    vstd::string::is_ascii_spec_bytes("zoom");
    vstd::string::is_ascii_spec_bytes("focus_distance");
    if exposure < 0 {
        lemma_decimal_text_digits((-exposure) as nat);
    } else {
        lemma_decimal_text_digits(exposure as nat);
    }
    assert(lacks_byte(v, 38)) by {
        if exposure < 0 {
            assert forall|i: int| 0 <= i < v.len() implies v[i] != 38 by {
                if i > 0 {
                    assert(v[i] == decimal_text((-exposure) as nat)[i - 1]);
                }
            }
        }
    }
    assert(key[0] != "resolution_str".spec_bytes()[0]);
    assert(key[0] != "focus_distance".spec_bytes()[0]);
    assert(!is_text_key(key));
    assert(!is_decimal_key(key));
    assert(is_int_key(key));
    lemma_single_piece(key, v);
    lemma_parse_signed_decimal_text(exposure as int);
    let c = command_text(key, v);
    assert(query_field(c) == Some((key, FieldValue::Int(exposure as int))));
}

/// A queued flashlight setting reaches the phone as exactly that on/off
/// field.
pub proof fn lemma_flash_command_reads_back(on: bool)
    ensures
        query_fields(command_text("flash".spec_bytes(), flag_text(on))) == seq![
            ("flash".spec_bytes(), FieldValue::Flag(on)),
        ],
{
    let key = "flash".spec_bytes();
    reveal_strlit("flash");
    reveal_strlit("true");
    reveal_strlit("false");
    vstd::string::is_ascii_spec_bytes("flash");
    vstd::string::is_ascii_spec_bytes("true");
    vstd::string::is_ascii_spec_bytes("false");
    reveal_strlit("camera");
    reveal_strlit("resolution_str");
    reveal_strlit("stream_protocol");
    reveal_strlit("rotation");
    vstd::string::is_ascii_spec_bytes("camera");
    vstd::string::is_ascii_spec_bytes("resolution_str");
    vstd::string::is_ascii_spec_bytes("stream_protocol");
    vstd::string::is_ascii_spec_bytes("rotation");
    lemma_single_piece(key, flag_text(on));
}

/// The stream protocol command, whose value is `rtsp` or `mjpeg`, reaches
/// the phone as exactly that text field.
pub proof fn lemma_protocol_command_reads_back(protocol: StreamProtocol)
    ensures
        query_fields(command_text("stream_protocol".spec_bytes(), protocol_codec(protocol)))
            == seq![("stream_protocol".spec_bytes(), FieldValue::Text(protocol_codec(protocol)))],
{
    reveal_strlit("rtsp");
    reveal_strlit("mjpeg");
    vstd::string::is_ascii_spec_bytes("rtsp");
    vstd::string::is_ascii_spec_bytes("mjpeg");
    lemma_text_command_reads_back("stream_protocol".spec_bytes(), protocol_codec(protocol));
}

} // verus!

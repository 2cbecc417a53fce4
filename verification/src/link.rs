//! The decisions of the control link and the stream around their I/O:
//! when to drop, refresh or replace the control connection, when to fall
//! back from USB to Wi-Fi and back, which stream protocol to use, and the
//! readings of `adb` output and HTTP status lines.

use vstd::prelude::*;
use vstd::string::StringSliceAdditionalSpecFns;
use crate::bytes::append_bytes;
use crate::state::{
    apply_settings, ascii_lowercase, settings_applied, ClientState, ConnectionMode, DeviceSettings,
    DEFAULT_PHONE_IP, HTTP_PORT, RTSP_PORT,
};
use crate::text::{
    bytes_contain, bytes_equal, contains, decimal_text, has_prefix_at, line_at, push_decimal,
    text_lines,
};

verus! {

broadcast use vstd::string::group_string_axioms;

/// How many failed rounds in a row, in USB mode, before falling back to
/// Wi-Fi.
pub const USB_FAILURES_BEFORE_FALLBACK: u32 = 3;

/// How often, in milliseconds, the ADB port forward is renewed in USB mode.
pub const ADB_REFRESH_INTERVAL_MS: u64 = 3000;

/// What the control link reads of the shared state at the start of a
/// round; the queued command is taken out of the state.
pub struct LinkSnapshot {
    pub phone_ip: String,
    pub wifi_ip: String,
    pub auto_fallback: bool,
    pub connection_mode: ConnectionMode,
    pub command: Option<Vec<u8>>,
}

/// Reads the start-of-round snapshot and takes the queued command.
pub fn take_snapshot(s: &mut ClientState) -> (r: LinkSnapshot)
    ensures
        r.phone_ip@ == old(s).phone_ip@,
        r.wifi_ip@ == old(s).wifi_ip@,
        r.auto_fallback == old(s).auto_fallback,
        r.connection_mode == old(s).connection_mode,
        r.command == old(s).pending_command,
        *final(s) == (ClientState { pending_command: None, ..*old(s) }),
{
    let command = s.pending_command.take();
    LinkSnapshot {
        phone_ip: s.phone_ip.clone(),
        wifi_ip: s.wifi_ip.clone(),
        auto_fallback: s.auto_fallback,
        connection_mode: s.connection_mode,
        command,
    }
}

/// Whether `ip` is the local end of the ADB forward.
pub fn is_local_phone_ip(ip: &str) -> (r: bool)
    ensures
        r == (ip.spec_bytes() == DEFAULT_PHONE_IP.spec_bytes()),
{
    bytes_equal(ip.as_bytes(), DEFAULT_PHONE_IP.as_bytes())
}

/// The phone is reached through the ADB forward at the local address.
pub open spec fn on_usb_link(mode: ConnectionMode, ip: Seq<u8>) -> bool {
    mode == ConnectionMode::Usb && ip == DEFAULT_PHONE_IP.spec_bytes()
}

/// Whether the ADB port forward is due for renewal: in USB mode at the
/// local address, once the interval has passed since the last renewal.
pub fn adb_refresh_due(mode: ConnectionMode, phone_ip: &str, elapsed_ms: u64) -> (r: bool)
    ensures
        r == (on_usb_link(mode, phone_ip.spec_bytes()) && elapsed_ms >= ADB_REFRESH_INTERVAL_MS),
{
    mode == ConnectionMode::Usb && is_local_phone_ip(phone_ip) && elapsed_ms >= ADB_REFRESH_INTERVAL_MS
}

/// The Wi-Fi address is one to fall back to: not empty, not local.
pub open spec fn wifi_target_valid(wifi_ip: Seq<u8>) -> bool {
    wifi_ip.len() > 0 && wifi_ip != DEFAULT_PHONE_IP.spec_bytes()
}

/// The failure count after one more failed round in USB mode at the
/// local address with auto-fallback on (saturating at `u32::MAX`).
pub open spec fn bumped(failures: u32) -> u32 {
    if failures < u32::MAX {
        (failures + 1) as u32
    } else {
        u32::MAX
    }
}

/// Whether a failed round falls back to Wi-Fi.
pub open spec fn falls_back(failures: u32, mode: ConnectionMode, ip: Seq<u8>, auto_fallback: bool, wifi_ip: Seq<u8>) -> bool {
    on_usb_link(mode, ip) && auto_fallback && bumped(failures) >= USB_FAILURES_BEFORE_FALLBACK
        && wifi_target_valid(wifi_ip)
}

/// The failure count after a failed round.
pub open spec fn failures_after(failures: u32, mode: ConnectionMode, ip: Seq<u8>, auto_fallback: bool, wifi_ip: Seq<u8>) -> u32 {
    if on_usb_link(mode, ip) && auto_fallback {
        if falls_back(failures, mode, ip, auto_fallback, wifi_ip) {
            0
        } else {
            bumped(failures)
        }
    } else {
        failures
    }
}

/// The state of the control link's supervision: the failed rounds in a
/// row and the address the control connection is open to, if it is open.
pub struct LinkSupervisor {
    pub consecutive_usb_failures: u32,
    pub open_link_ip: Option<String>,
}

/// The text bytes of a `String`.
pub open spec fn string_bytes(s: String) -> Seq<u8> {
    vstd::utf8::encode_utf8(s@)
}

/// What a round in which the phone could not be reached does (see
/// `LinkSupervisor::on_phone_unreachable`).
pub open spec fn after_unreachable(
    old_sup: LinkSupervisor,
    new_sup: LinkSupervisor,
    old_s: ClientState,
    new_s: ClientState,
    snap: LinkSnapshot,
) -> bool {
    let fb = falls_back(
        old_sup.consecutive_usb_failures,
        snap.connection_mode,
        string_bytes(snap.phone_ip),
        snap.auto_fallback,
        string_bytes(snap.wifi_ip),
    );
    &&& new_sup.open_link_ip == old_sup.open_link_ip
    &&& new_sup.consecutive_usb_failures == failures_after(
        old_sup.consecutive_usb_failures,
        snap.connection_mode,
        string_bytes(snap.phone_ip),
        snap.auto_fallback,
        string_bytes(snap.wifi_ip),
    )
    &&& fb ==> new_s.phone_ip@ == snap.wifi_ip@ && new_s.connection_mode == ConnectionMode::Wifi
    &&& !fb ==> new_s.phone_ip == old_s.phone_ip && new_s.connection_mode == old_s.connection_mode
    &&& new_s == (ClientState {
        connected: false,
        phone_ip: new_s.phone_ip,
        connection_mode: new_s.connection_mode,
        ..old_s
    })
}

/// Two queued commands hold the same text.
pub open spec fn same_command(a: Option<Vec<u8>>, b: Option<Vec<u8>>) -> bool {
    match (a, b) {
        (Some(x), Some(y)) => x@ == y@,
        (None, None) => true,
        _ => false,
    }
}

/// What the caller of the control link saw in a round.
pub enum LinkEvent {
    /// The control connection to the snapshot's address opened.
    Opened,
    /// The phone reported its settings (over HTTP or the control
    /// connection).
    Settings(DeviceSettings),
    /// The phone could not be reached at all.
    Unreachable,
    /// After a `CheckUsb` action: an ADB device is attached and its port
    /// forward works.
    UsbBack,
    /// The queued command could not be sent over the control connection.
    CommandFailed,
    /// The control connection failed while reading.
    Closed,
}

/// What the caller does next.
#[derive(Clone, Copy, Debug, PartialEq, Eq, Structural)]
pub enum LinkAction {
    /// Go on with the round.
    Proceed,
    /// Check for an ADB device, renew its forward, and report `UsbBack` if
    /// that works.
    CheckUsb,
}

impl LinkSupervisor {
    /// No failures, no connection.
    pub fn new() -> (r: Self)
        ensures
            r.consecutive_usb_failures == 0,
            r.open_link_ip is None,
    {
        LinkSupervisor { consecutive_usb_failures: 0, open_link_ip: None }
    }

    /// Forgets the open control connection when it goes to another address
    /// than the phone's current one; returns whether it did, in which case
    /// the caller closes that connection.
    pub fn release_outdated_link(&mut self, phone_ip: &str) -> (released: bool)
        ensures
            released == (old(self).open_link_ip matches Some(ip) && ip@ != phone_ip@),
            released ==> final(self).open_link_ip is None,
            !released ==> final(self).open_link_ip == old(self).open_link_ip,
            final(self).consecutive_usb_failures == old(self).consecutive_usb_failures,
    {
        let outdated = match &self.open_link_ip {
            Some(ip) => {
                let cur = phone_ip.to_string();
                !(*ip == cur)
            },
            None => false,
        };
        if outdated {
            self.open_link_ip = None;
        }
        outdated
    }

    /// The control connection is closed.
    pub fn on_link_closed(&mut self, s: &mut ClientState)
        ensures
            final(self).open_link_ip is None,
            final(self).consecutive_usb_failures == old(self).consecutive_usb_failures,
            *final(s) == (ClientState { connected: false, ..*old(s) }),
    {
        self.open_link_ip = None;
        s.connected = false;
    }

    /// A queued command could not be sent: the connection is closed and
    /// the command goes back to the queue for the next round.
    pub fn on_command_failed(&mut self, s: &mut ClientState, command: Option<Vec<u8>>)
        ensures
            final(self).open_link_ip is None,
            final(self).consecutive_usb_failures == old(self).consecutive_usb_failures,
            *final(s) == (ClientState { connected: false, pending_command: command, ..*old(s) }),
    {
        self.open_link_ip = None;
        s.connected = false;
        s.pending_command = command;
    }

    /// The control connection to `ip` is open: the phone is connected and
    /// the failure count starts over.
    pub fn on_link_opened(&mut self, s: &mut ClientState, ip: &str)
        ensures
            final(self).open_link_ip matches Some(o) && o@ == ip@,
            final(self).consecutive_usb_failures == 0,
            *final(s) == (ClientState { connected: true, ..*old(s) }),
    {
        self.open_link_ip = Some(ip.to_string());
        self.consecutive_usb_failures = 0;
        s.connected = true;
    }

    /// The phone reported its settings: they are applied and the failure
    /// count starts over.
    pub fn on_settings(&mut self, s: &mut ClientState, settings: DeviceSettings)
        ensures
            final(self).consecutive_usb_failures == 0,
            final(self).open_link_ip == old(self).open_link_ip,
            settings_applied(*old(s), *final(s), settings),
    {
        self.consecutive_usb_failures = 0;
        apply_settings(s, settings);
    }

    /// A round in which the phone could not be reached at all. The phone
    /// counts as disconnected. In USB mode at the local address with
    /// auto-fallback on, the failure is counted, and once the count reaches
    /// the limit with a usable Wi-Fi address, the state switches to Wi-Fi
    /// at that address and the count starts over. In Wi-Fi mode with
    /// auto-fallback on, returns `true`: the caller should check for an ADB
    /// device and, if its forward succeeds, call `on_usb_restored`.
    pub fn on_phone_unreachable(&mut self, s: &mut ClientState, snap: &LinkSnapshot) -> (check_usb: bool)
        ensures
            after_unreachable(*old(self), *final(self), *old(s), *final(s), *snap),
            check_usb == (snap.connection_mode == ConnectionMode::Wifi && snap.auto_fallback),
    {
        s.connected = false;
        let ip = snap.phone_ip.as_str();
        let wifi = snap.wifi_ip.as_str();
        assert(ip.spec_bytes() == string_bytes(snap.phone_ip));
        assert(wifi.spec_bytes() == string_bytes(snap.wifi_ip));
        let wifi_len = wifi.as_bytes().len();
        assert(wifi_len == wifi.spec_bytes().len());
        if snap.connection_mode == ConnectionMode::Usb && is_local_phone_ip(ip) && snap.auto_fallback {
            let f = self.consecutive_usb_failures.saturating_add(1);
            self.consecutive_usb_failures = f;
            if f >= USB_FAILURES_BEFORE_FALLBACK && wifi_len > 0 && !is_local_phone_ip(wifi) {
                assert(wifi.spec_bytes().len() > 0);
                s.phone_ip = snap.wifi_ip.clone();
                s.connection_mode = ConnectionMode::Wifi;
                self.consecutive_usb_failures = 0;
            }
            return false;
        }
        snap.connection_mode == ConnectionMode::Wifi && snap.auto_fallback
    }

    /// The ADB device is back and its forward works: back to USB mode at
    /// the local address, with the failure count starting over.
    pub fn on_usb_restored(&mut self, s: &mut ClientState)
        ensures
            final(s).phone_ip@ == DEFAULT_PHONE_IP@,
            final(s).connection_mode == ConnectionMode::Usb,
            final(self).consecutive_usb_failures == 0,
            final(self).open_link_ip == old(self).open_link_ip,
            *final(s) == (ClientState {
                phone_ip: final(s).phone_ip,
                connection_mode: ConnectionMode::Usb,
                ..*old(s)
            }),
    {
        s.phone_ip = DEFAULT_PHONE_IP.to_string();
        s.connection_mode = ConnectionMode::Usb;
        self.consecutive_usb_failures = 0;
    }

    /// One step of the control link: takes what the caller saw in the round
    /// started with `snap` and says what to do next. `UsbBack` counts only
    /// where the step asked for the check (Wi-Fi mode with auto-fallback
    /// on). With auto-fallback off, no step changes the phone's address,
    /// the connection mode, the Wi-Fi address or the fallback setting.
    pub fn on_event(&mut self, s: &mut ClientState, snap: &LinkSnapshot, event: LinkEvent) -> (action:
        LinkAction)
        ensures
            match event {
                LinkEvent::Opened => {
                    &&& action == LinkAction::Proceed
                    &&& (final(self).open_link_ip matches Some(o) && o@ == snap.phone_ip@)
                    &&& final(self).consecutive_usb_failures == 0
                    &&& *final(s) == (ClientState { connected: true, ..*old(s) })
                },
                LinkEvent::Settings(d) => {
                    &&& action == LinkAction::Proceed
                    &&& final(self).consecutive_usb_failures == 0
                    &&& final(self).open_link_ip == old(self).open_link_ip
                    &&& settings_applied(*old(s), *final(s), d)
                },
                LinkEvent::Unreachable => {
                    &&& after_unreachable(*old(self), *final(self), *old(s), *final(s), *snap)
                    &&& action == if snap.connection_mode == ConnectionMode::Wifi
                        && snap.auto_fallback {
                        LinkAction::CheckUsb
                    } else {
                        LinkAction::Proceed
                    }
                },
                LinkEvent::UsbBack => {
                    &&& action == LinkAction::Proceed
                    &&& final(self).open_link_ip == old(self).open_link_ip
                    &&& if snap.connection_mode == ConnectionMode::Wifi && snap.auto_fallback {
                        &&& final(s).phone_ip@ == DEFAULT_PHONE_IP@
                        &&& *final(s) == (ClientState {
                            phone_ip: final(s).phone_ip,
                            connection_mode: ConnectionMode::Usb,
                            ..*old(s)
                        })
                        &&& final(self).consecutive_usb_failures == 0
                    } else {
                        &&& *final(s) == *old(s)
                        &&& final(self).consecutive_usb_failures == old(
                            self,
                        ).consecutive_usb_failures
                    }
                },
                LinkEvent::CommandFailed => {
                    &&& action == LinkAction::Proceed
                    &&& final(self).open_link_ip is None
                    &&& final(self).consecutive_usb_failures == old(self).consecutive_usb_failures
                    &&& same_command(final(s).pending_command, snap.command)
                    &&& *final(s) == (ClientState {
                        connected: false,
                        pending_command: final(s).pending_command,
                        ..*old(s)
                    })
                },
                LinkEvent::Closed => {
                    &&& action == LinkAction::Proceed
                    &&& final(self).open_link_ip is None
                    &&& final(self).consecutive_usb_failures == old(self).consecutive_usb_failures
                    &&& *final(s) == (ClientState { connected: false, ..*old(s) })
                },
            },
            !snap.auto_fallback ==> {
                &&& final(s).phone_ip == old(s).phone_ip
                &&& final(s).connection_mode == old(s).connection_mode
                &&& final(s).wifi_ip == old(s).wifi_ip
                &&& final(s).auto_fallback == old(s).auto_fallback
            },
    {
        match event {
            LinkEvent::Opened => {
                let ip = snap.phone_ip.as_str();
                assert(ip@ == snap.phone_ip@);
                self.on_link_opened(s, ip);
                LinkAction::Proceed
            },
            LinkEvent::Settings(d) => {
                self.on_settings(s, d);
                LinkAction::Proceed
            },
            LinkEvent::Unreachable => {
                if self.on_phone_unreachable(s, snap) {
                    LinkAction::CheckUsb
                } else {
                    LinkAction::Proceed
                }
            },
            LinkEvent::UsbBack => {
                if snap.connection_mode == ConnectionMode::Wifi && snap.auto_fallback {
                    self.on_usb_restored(s);
                }
                LinkAction::Proceed
            },
            LinkEvent::CommandFailed => {
                let command = match &snap.command {
                    Some(c) => Some(c.clone()),
                    None => None,
                };
                self.on_command_failed(s, command);
                LinkAction::Proceed
            },
            LinkEvent::Closed => {
                self.on_link_closed(s);
                LinkAction::Proceed
            },
        }
    }
}

/// Over rounds in which the phone stays unreachable in USB mode at the
/// local address with auto-fallback on and a usable Wi-Fi address, the
/// client falls back to Wi-Fi on the third round counted from a fresh
/// start, and not before.
pub proof fn lemma_fallback_on_third_failure(ip: Seq<u8>, wifi_ip: Seq<u8>)
    requires
        on_usb_link(ConnectionMode::Usb, ip),
        wifi_target_valid(wifi_ip),
    ensures
        !falls_back(0, ConnectionMode::Usb, ip, true, wifi_ip),
        failures_after(0, ConnectionMode::Usb, ip, true, wifi_ip) == 1,
        !falls_back(1, ConnectionMode::Usb, ip, true, wifi_ip),
        failures_after(1, ConnectionMode::Usb, ip, true, wifi_ip) == 2,
        falls_back(2, ConnectionMode::Usb, ip, true, wifi_ip),
        failures_after(2, ConnectionMode::Usb, ip, true, wifi_ip) == 0,
{
}

/// Without auto-fallback, or away from the USB link, failed rounds are not
/// counted and never switch the mode.
pub proof fn lemma_no_fallback_off_usb(failures: u32, mode: ConnectionMode, ip: Seq<u8>, auto_fallback: bool, wifi_ip: Seq<u8>)
    requires
        !(on_usb_link(mode, ip) && auto_fallback),
    ensures
        !falls_back(failures, mode, ip, auto_fallback, wifi_ip),
        failures_after(failures, mode, ip, auto_fallback, wifi_ip) == failures,
{
}

// ---------------------------------------------------------------------------
// Stream
// ---------------------------------------------------------------------------

/// The two ways of receiving video from the phone.
#[derive(Clone, Copy, Debug, PartialEq, Eq, Structural)]
pub enum StreamProtocol {
    /// H.264 over RTSP, RTP interleaved on TCP.
    Rtsp,
    /// JPEG frames over HTTP.
    Mjpeg,
}

/// The protocol for a codec setting: RTSP for `rtsp`, MJPEG for anything
/// else.
pub open spec fn select_protocol_spec(codec: Seq<u8>) -> StreamProtocol {
    if codec == "rtsp".spec_bytes() {
        StreamProtocol::Rtsp
    } else {
        StreamProtocol::Mjpeg
    }
}

/// The protocol for a codec setting: RTSP for `rtsp`, MJPEG for anything
/// else.
pub fn select_protocol(codec: &str) -> (r: StreamProtocol)
    ensures
        r == select_protocol_spec(codec.spec_bytes()),
{
    if bytes_equal(codec.as_bytes(), "rtsp".as_bytes()) {
        StreamProtocol::Rtsp
    } else {
        StreamProtocol::Mjpeg
    }
}

/// The codec setting a running stream session stands for.
pub open spec fn protocol_codec(p: StreamProtocol) -> Seq<u8> {
    match p {
        StreamProtocol::Rtsp => "rtsp".spec_bytes(),
        StreamProtocol::Mjpeg => "mjpeg".spec_bytes(),
    }
}

/// A stream session opened with `protocol` to `session_ip` goes on: the
/// codec setting still names its protocol, the phone is connected and its
/// address has not changed.
pub open spec fn session_live(s: ClientState, protocol: StreamProtocol, session_ip: Seq<char>) -> bool {
    string_bytes(s.codec) == protocol_codec(protocol) && s.connected && s.phone_ip@ == session_ip
}

/// Whether a stream session opened with `protocol` to `session_ip` goes on.
/// (A codec setting that is neither `rtsp` nor `mjpeg` selects MJPEG but
/// ends its session at once.)
pub fn session_current(s: &ClientState, protocol: StreamProtocol, session_ip: &str) -> (r: bool)
    ensures
        r == session_live(*s, protocol, session_ip@),
{
    let name = match protocol {
        StreamProtocol::Rtsp => "rtsp",
        StreamProtocol::Mjpeg => "mjpeg",
    };
    let codec_ok = bytes_equal(s.codec.as_str().as_bytes(), name.as_bytes());
    let ip = session_ip.to_string();
    codec_ok && s.connected && s.phone_ip == ip
}

/// What the stream worker does at the start of a round.
pub enum StreamPlan {
    /// The phone is not connected: wait and look again.
    Wait,
    /// Open an RTSP session with the phone at `ip`, on `port`.
    Rtsp { ip: String, port: u16 },
    /// Open the phone's MJPEG stream at `ip`, on `port`, sending `request`.
    Mjpeg { ip: String, port: u16, request: Vec<u8> },
}

/// The `ip:port` address text.
pub open spec fn host_text(ip: Seq<u8>, port: u16) -> Seq<u8> {
    ip + ":".spec_bytes() + decimal_text(port as nat)
}

/// Decides the round of the stream worker from the shared state: nothing
/// while the phone is not connected; an RTSP session at the phone's
/// address on the RTSP port when the codec setting is `rtsp`; otherwise
/// the MJPEG stream at the phone's address on the HTTP port, with its
/// request.
pub fn plan_stream(s: &ClientState) -> (r: StreamPlan)
    ensures
        !s.connected ==> r is Wait,
        s.connected && select_protocol_spec(string_bytes(s.codec)) == StreamProtocol::Rtsp ==> (r matches StreamPlan::Rtsp { ip, port } && ip@ == s.phone_ip@ && port == RTSP_PORT),
        s.connected && select_protocol_spec(string_bytes(s.codec)) == StreamProtocol::Mjpeg ==> (r matches StreamPlan::Mjpeg { ip, port, request } && ip@ == s.phone_ip@ && port
            == HTTP_PORT && request@ == mjpeg_request_spec(
            host_text(string_bytes(s.phone_ip), HTTP_PORT),
        )),
{
    if !s.connected {
        return StreamPlan::Wait;
    }
    match select_protocol(s.codec.as_str()) {
        StreamProtocol::Rtsp => StreamPlan::Rtsp { ip: s.phone_ip.clone(), port: RTSP_PORT },
        StreamProtocol::Mjpeg => {
            let mut host: Vec<u8> = Vec::new();
            append_bytes(&mut host, s.phone_ip.as_str().as_bytes());
            append_bytes(&mut host, ":".as_bytes());
            push_decimal(&mut host, HTTP_PORT as u64);
            let mut request: Vec<u8> = Vec::new();
            append_bytes(&mut request, "GET /video HTTP/1.0\r\nHost: ".as_bytes());
            append_bytes(&mut request, host.as_slice());
            append_bytes(&mut request, "\r\nConnection: close\r\n\r\n".as_bytes());
            StreamPlan::Mjpeg { ip: s.phone_ip.clone(), port: HTTP_PORT, request }
        },
    }
}

/// A protocol the phone reports in ASCII text selects, once the settings
/// are applied, RTSP exactly when its lower-cased text is `rtsp`, and MJPEG
/// otherwise: a phone reporting `RTSP` streams over RTSP, one reporting
/// `MJPEG` over MJPEG.
pub proof fn lemma_reported_protocol_selects_stream(
    old: ClientState,
    new: ClientState,
    settings: DeviceSettings,
)
    requires
        settings_applied(old, new, settings),
        vstd::utf8::is_ascii_chars(settings.stream_protocol@),
    ensures
        select_protocol_spec(string_bytes(new.codec)) == if ascii_lowercase(
            settings.stream_protocol@,
        ) == "rtsp"@ {
            StreamProtocol::Rtsp
        } else {
            StreamProtocol::Mjpeg
        },
        settings.stream_protocol@ == "RTSP"@ ==> select_protocol_spec(string_bytes(new.codec))
            == StreamProtocol::Rtsp,
        settings.stream_protocol@ == "MJPEG"@ ==> select_protocol_spec(string_bytes(new.codec))
            == StreamProtocol::Mjpeg,
{
    vstd::utf8::encode_utf8_decode_utf8(new.codec@);
    vstd::utf8::encode_utf8_decode_utf8("rtsp"@);
    reveal_strlit("rtsp");
    reveal_strlit("RTSP");
    reveal_strlit("MJPEG");
    if settings.stream_protocol@ == "RTSP"@ {
        assert(ascii_lowercase("RTSP"@) =~= "rtsp"@);
    }
    if settings.stream_protocol@ == "MJPEG"@ {
        assert(ascii_lowercase("MJPEG"@).len() != "rtsp"@.len());
    }
}

/// A stream session opened from the plan of a state whose codec setting
/// names its protocol stays live exactly while the phone stays connected
/// at the same address with the same codec setting: a change of any of the
/// three ends it before the next frame is read.
pub proof fn lemma_session_follows_state(s: ClientState, s2: ClientState, p: StreamProtocol)
    requires
        s.connected,
        string_bytes(s.codec) == protocol_codec(p),
    ensures
        select_protocol_spec(string_bytes(s.codec)) == p,
        session_live(s, p, s.phone_ip@),
        session_live(s2, p, s.phone_ip@) <==> (s2.connected && s2.phone_ip@ == s.phone_ip@
            && s2.codec@ == s.codec@),
{
    reveal_strlit("rtsp");
    reveal_strlit("mjpeg");
    vstd::string::is_ascii_spec_bytes("rtsp");
    vstd::string::is_ascii_spec_bytes("mjpeg");
    assert("rtsp".spec_bytes() != "mjpeg".spec_bytes()) by {
        assert("rtsp".spec_bytes().len() != "mjpeg".spec_bytes().len());
    }
    if string_bytes(s2.codec) == string_bytes(s.codec) {
        vstd::utf8::encode_utf8_decode_utf8(s.codec@);
        vstd::utf8::encode_utf8_decode_utf8(s2.codec@);
    }
}

/// The request for the phone's MJPEG stream at `host` (`ip:port`).
pub open spec fn mjpeg_request_spec(host: Seq<u8>) -> Seq<u8> {
    "GET /video HTTP/1.0\r\nHost: ".spec_bytes() + host + "\r\nConnection: close\r\n\r\n".spec_bytes()
}

/// Builds the request for the phone's MJPEG stream.
pub fn mjpeg_request(host: &str) -> (r: Vec<u8>)
    ensures
        r@ == mjpeg_request_spec(host.spec_bytes()),
{
    let mut r: Vec<u8> = Vec::new();
    append_bytes(&mut r, "GET /video HTTP/1.0\r\nHost: ".as_bytes());
    append_bytes(&mut r, host.as_bytes());
    append_bytes(&mut r, "\r\nConnection: close\r\n\r\n".as_bytes());
    r
}

/// Whether the status line answering the WebSocket upgrade accepts it
/// (contains `101`).
pub fn upgrade_accepted(status_line: &[u8]) -> (r: bool)
    ensures
        r == contains(status_line@, "101".spec_bytes()),
{
    bytes_contain(status_line, "101".as_bytes())
}

// ---------------------------------------------------------------------------
// adb
// ---------------------------------------------------------------------------

/// A line of `adb devices` output that lists an attached device: it holds
/// a tab before `device`, or ends with ` device`.
pub open spec fn lists_device(line: Seq<u8>) -> bool {
    contains(line, "\tdevice".spec_bytes()) || (line.len() >= 7 && line.skip(line.len() - 7)
        == " device".spec_bytes())
}

/// `adb devices` output shows an attached device: a line after the first
/// (the heading) lists one.
pub open spec fn adb_output_has_device(out: Seq<u8>) -> bool {
    let ls = text_lines(out);
    exists|i: int| 1 <= i < ls.len() && lists_device(#[trigger] ls[i])
}

/// Whether `adb devices` output shows an attached device.
pub fn adb_lists_device(stdout: &[u8]) -> (r: bool)
    ensures
        r == adb_output_has_device(stdout@),
{
    let tab = "\tdevice".as_bytes();
    let tail = " device".as_bytes();
    proof {
        reveal_strlit(" device");
        vstd::string::is_ascii_spec_bytes(" device");
    }
    assert(tail@.len() == 7);
    let ghost ls = text_lines(stdout@);
    assert(stdout@.skip(0) =~= stdout@);
    let mut pos: usize = 0;
    let mut k: usize = 0;
    while pos < stdout.len()
        invariant
            pos <= stdout@.len(),
            tab@ == "\tdevice".spec_bytes(),
            tail@ == " device".spec_bytes(),
            tail@.len() == 7,
            ls == text_lines(stdout@),
            k <= ls.len(),
            k <= pos,
            ls.skip(k as int) == text_lines(stdout@.skip(pos as int)),
            forall|i: int| 1 <= i < k ==> !lists_device(#[trigger] ls[i]),
        decreases stdout@.len() - pos,
    {
        let (end, next) = line_at(stdout, pos);
        let line = &stdout[pos..end];
        assert(ls.skip(k as int)[0] == line@);
        assert(ls[k as int] == line@);
        if k >= 1 {
            let has_tab = bytes_contain(line, tab);
            let ends = line.len() >= 7 && has_prefix_at(line, line.len() - 7, line.len(), tail);
            proof {
                if line@.len() >= 7 {
                    assert(line@.subrange(line@.len() - 7, line@.len() as int) =~= line@.skip(
                        line@.len() - 7,
                    ));
                    assert(line@.skip(line@.len() - 7).take(7) =~= line@.skip(line@.len() - 7));
                }
            }
            if has_tab || ends {
                return true;
            }
        }
        assert(ls.skip(k + 1) =~= ls.skip(k as int).skip(1));
        k = k + 1;
        match next {
            Some(n) => {
                pos = n;
            },
            None => {
                assert(stdout@.skip(stdout@.len() as int) =~= Seq::<u8>::empty());
                assert(ls.skip(k as int).len() == 0);
                pos = stdout.len();
            },
        }
    }
    assert(stdout@.skip(pos as int) =~= Seq::<u8>::empty());
    assert(ls.skip(k as int).len() == 0);
    false
}

} // verus!

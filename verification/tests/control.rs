use awc_gui::command::{query_to_update_fields, UpdateField, UpdateValue};
use awc_gui::controls::{
    request_camera, request_exposure, request_flash_toggle, request_protocol, request_resolution,
    request_rotation, set_fallback_ip, ControlPanel,
};
use awc_gui::link::{
    adb_lists_device, adb_refresh_due, is_local_phone_ip, mjpeg_request, plan_stream,
    select_protocol, session_current, take_snapshot, upgrade_accepted, LinkAction, LinkEvent,
    LinkSupervisor, StreamPlan, StreamProtocol, ADB_REFRESH_INTERVAL_MS,
    USB_FAILURES_BEFORE_FALLBACK,
};
use awc_gui::state::{
    apply_settings, parse_resolution, ClientState, ConnectionMode, DeviceSettings,
    DEFAULT_PHONE_IP, DEFAULT_WIFI_IP, HTTP_PORT, RTSP_PORT,
};
use awc_gui::text::trim_str;

fn field(key: &str, value: UpdateValue) -> UpdateField {
    UpdateField { key: key.as_bytes().to_vec(), value }
}

fn settings(protocol: &str, rotation: &str, resolution: &str, supported: Vec<String>) -> DeviceSettings {
    DeviceSettings {
        camera: "front".to_string(),
        resolution_str: resolution.to_string(),
        stream_protocol: protocol.to_string(),
        rotation: rotation.to_string(),
        supported_resolutions: supported,
        flash: true,
        has_flash_unit: false,
        exposure_index: -2,
    }
}

#[test]
fn initial_state_values() {
    let s = ClientState::default();
    assert_eq!(s.phone_ip, "127.0.0.1");
    assert_eq!(s.wifi_ip, "192.168.1.100");
    assert!(s.auto_fallback);
    assert_eq!(s.connection_mode, ConnectionMode::Usb);
    assert!(!s.connected);
    assert_eq!(s.camera, "back");
    assert_eq!(s.resolution, "1280x720");
    assert_eq!(s.codec, "rtsp");
    assert_eq!(s.rotation, "auto");
    assert_eq!(s.supported_resolutions, vec!["3840x2160", "2560x1440", "1920x1080", "1280x720", "640x480"]);
    assert!(!s.flash_enabled);
    assert!(s.has_flash);
    assert_eq!(s.exposure, 0);
    assert_eq!((s.source_w, s.source_h), (1280, 720));
    assert_eq!(s.pending_command, None);
    assert_eq!(DEFAULT_PHONE_IP, "127.0.0.1");
    assert_eq!(DEFAULT_WIFI_IP, "192.168.1.100");
    assert_eq!((HTTP_PORT, RTSP_PORT), (8080, 8554));
}

#[test]
fn resolution_text_reading() {
    assert_eq!(parse_resolution("1920x1080"), Some((1920, 1080)));
    assert_eq!(parse_resolution("+640x480"), Some((640, 480)));
    assert_eq!(parse_resolution("1920x1080x1"), None);
    assert_eq!(parse_resolution("axb"), None);
    assert_eq!(parse_resolution("640x"), None);
    assert_eq!(parse_resolution("1280"), None);
    assert_eq!(parse_resolution("4294967296x1"), None);
    assert_eq!(parse_resolution("4294967295x0"), Some((4294967295, 0)));
}

#[test]
fn reported_settings_update_state() {
    let mut s = ClientState::default();
    apply_settings(&mut s, settings("RTSP", "AUTO", "1920x1080", vec!["1920x1080".to_string()]));
    assert!(s.connected);
    assert_eq!(s.camera, "front");
    assert_eq!(s.resolution, "1920x1080");
    assert_eq!(s.codec, "rtsp");
    assert_eq!(s.rotation, "auto");
    assert!(s.flash_enabled);
    assert!(!s.has_flash);
    assert_eq!(s.exposure, -2);
    assert_eq!(s.supported_resolutions, vec!["1920x1080"]);
    assert_eq!((s.source_w, s.source_h), (1920, 1080));
}

#[test]
fn reported_settings_keep_what_they_lack() {
    let mut s = ClientState::default();
    apply_settings(&mut s, settings("MJPEG", "90", "unknown", Vec::new()));
    assert_eq!(s.codec, "mjpeg");
    assert_eq!(s.rotation, "90");
    assert_eq!(s.supported_resolutions.len(), 5);
    assert_eq!((s.source_w, s.source_h), (1280, 720));
    assert_eq!(s.phone_ip, "127.0.0.1");
}

#[test]
fn query_string_to_fields() {
    let fields = query_to_update_fields(
        b"camera=front&flash=true&zoom=2.5&exposure_index=-3&bogus=1&flash=maybe&noequals&rotation=a=b",
    );
    assert_eq!(
        fields,
        vec![
            field("camera", UpdateValue::Text(b"front".to_vec())),
            field("flash", UpdateValue::Flag(true)),
            field("zoom", UpdateValue::Decimal(b"2.5".to_vec())),
            field("exposure_index", UpdateValue::Int(-3)),
            field("rotation", UpdateValue::Text(b"a=b".to_vec())),
        ]
    );
}

#[test]
fn query_string_integer_limits() {
    let fields = query_to_update_fields(b"focus_mode=+7&stream_quality=9223372036854775808&exposure_index=-9223372036854775808&focus_distance=x");
    assert_eq!(
        fields,
        vec![
            field("focus_mode", UpdateValue::Int(7)),
            field("exposure_index", UpdateValue::Int(i64::MIN)),
            field("focus_distance", UpdateValue::Decimal(b"x".to_vec())),
        ]
    );
    assert!(query_to_update_fields(b"").is_empty());
}

#[test]
fn usb_fallback_after_three_failures() {
    let mut s = ClientState::default();
    let mut sup = LinkSupervisor::new();
    assert_eq!(USB_FAILURES_BEFORE_FALLBACK, 3);
    for round in 1..=2u32 {
        let snap = take_snapshot(&mut s);
        assert!(!sup.on_phone_unreachable(&mut s, &snap));
        assert_eq!(sup.consecutive_usb_failures, round);
        assert_eq!(s.connection_mode, ConnectionMode::Usb);
        assert_eq!(s.phone_ip, "127.0.0.1");
    }
    let snap = take_snapshot(&mut s);
    assert!(!sup.on_phone_unreachable(&mut s, &snap));
    assert_eq!(s.connection_mode, ConnectionMode::Wifi);
    assert_eq!(s.phone_ip, "192.168.1.100");
    assert_eq!(sup.consecutive_usb_failures, 0);
    assert!(!s.connected);
}

#[test]
fn no_fallback_without_usable_wifi_address() {
    for wifi in ["", "127.0.0.1"] {
        let mut s = ClientState::default();
        s.wifi_ip = wifi.to_string();
        let mut sup = LinkSupervisor::new();
        for _ in 0..5 {
            let snap = take_snapshot(&mut s);
            sup.on_phone_unreachable(&mut s, &snap);
        }
        assert_eq!(s.connection_mode, ConnectionMode::Usb);
        assert_eq!(sup.consecutive_usb_failures, 5);
    }
}

#[test]
fn no_fallback_when_disabled() {
    let mut s = ClientState::default();
    s.auto_fallback = false;
    let mut sup = LinkSupervisor::new();
    for _ in 0..5 {
        let snap = take_snapshot(&mut s);
        assert!(!sup.on_phone_unreachable(&mut s, &snap));
    }
    assert_eq!(s.connection_mode, ConnectionMode::Usb);
    assert_eq!(sup.consecutive_usb_failures, 0);
}

#[test]
fn wifi_failure_asks_for_usb_check() {
    let mut s = ClientState::default();
    s.connection_mode = ConnectionMode::Wifi;
    s.phone_ip = "192.168.1.100".to_string();
    s.connected = true;
    let mut sup = LinkSupervisor::new();
    let snap = take_snapshot(&mut s);
    assert!(sup.on_phone_unreachable(&mut s, &snap));
    assert!(!s.connected);
    assert_eq!(sup.consecutive_usb_failures, 0);
    sup.on_usb_restored(&mut s);
    assert_eq!(s.connection_mode, ConnectionMode::Usb);
    assert_eq!(s.phone_ip, "127.0.0.1");
}

#[test]
fn link_opened_and_dropped() {
    let mut s = ClientState::default();
    let mut sup = LinkSupervisor::new();
    sup.consecutive_usb_failures = 2;
    sup.on_link_opened(&mut s, "127.0.0.1");
    assert!(s.connected);
    assert_eq!(sup.consecutive_usb_failures, 0);
    assert!(!sup.release_outdated_link("127.0.0.1"));
    assert_eq!(sup.open_link_ip, Some("127.0.0.1".to_string()));
    assert!(sup.release_outdated_link("10.0.0.1"));
    assert_eq!(sup.open_link_ip, None);
    assert!(s.connected);
    sup.on_link_opened(&mut s, "127.0.0.1");
    sup.on_command_failed(&mut s, Some(b"camera=front".to_vec()));
    assert!(!s.connected);
    assert_eq!(s.pending_command, Some(b"camera=front".to_vec()));
    assert!(!sup.release_outdated_link("10.0.0.1"));
    sup.on_link_opened(&mut s, "10.0.0.1");
    sup.on_link_closed(&mut s);
    assert!(!s.connected);
    assert_eq!(sup.open_link_ip, None);
}

#[test]
fn settings_over_link_reset_failures() {
    let mut s = ClientState::default();
    let mut sup = LinkSupervisor::new();
    sup.consecutive_usb_failures = 2;
    sup.on_settings(&mut s, settings("rtsp", "0", "640x480", Vec::new()));
    assert_eq!(sup.consecutive_usb_failures, 0);
    assert!(s.connected);
    assert_eq!((s.source_w, s.source_h), (640, 480));
}

#[test]
fn snapshot_takes_queued_command() {
    let mut s = ClientState::default();
    s.pending_command = Some(b"rotation=90".to_vec());
    let snap = take_snapshot(&mut s);
    assert_eq!(snap.command, Some(b"rotation=90".to_vec()));
    assert_eq!(s.pending_command, None);
    assert_eq!(snap.phone_ip, "127.0.0.1");
    assert_eq!(snap.connection_mode, ConnectionMode::Usb);
}

#[test]
fn adb_refresh_timing() {
    assert_eq!(ADB_REFRESH_INTERVAL_MS, 3000);
    assert!(adb_refresh_due(ConnectionMode::Usb, "127.0.0.1", 3000));
    assert!(!adb_refresh_due(ConnectionMode::Usb, "127.0.0.1", 2999));
    assert!(!adb_refresh_due(ConnectionMode::Wifi, "127.0.0.1", 5000));
    assert!(!adb_refresh_due(ConnectionMode::Usb, "10.0.0.1", 5000));
    assert!(is_local_phone_ip("127.0.0.1"));
    assert!(!is_local_phone_ip("127.0.0.10"));
}

#[test]
fn adb_device_listing() {
    assert!(adb_lists_device(b"List of devices attached\nR58M12345\tdevice\n\n"));
    assert!(adb_lists_device(b"List of devices attached\r\nemulator-5554 device\r\n"));
    assert!(!adb_lists_device(b"List of devices attached\n\n"));
    assert!(!adb_lists_device(b"List of devices attached\nR58M12345\tunauthorized\n"));
    assert!(!adb_lists_device(b"x\tdevice\n"));
    assert!(!adb_lists_device(b""));
}

#[test]
fn stream_protocol_choice() {
    assert_eq!(select_protocol("rtsp"), StreamProtocol::Rtsp);
    assert_eq!(select_protocol("mjpeg"), StreamProtocol::Mjpeg);
    assert_eq!(select_protocol("RTSP"), StreamProtocol::Mjpeg);
    let mut s = ClientState::default();
    s.connected = true;
    assert!(session_current(&s, StreamProtocol::Rtsp, "127.0.0.1"));
    assert!(!session_current(&s, StreamProtocol::Mjpeg, "127.0.0.1"));
    assert!(!session_current(&s, StreamProtocol::Rtsp, "10.0.0.1"));
    s.connected = false;
    assert!(!session_current(&s, StreamProtocol::Rtsp, "127.0.0.1"));
}

#[test]
fn mjpeg_request_and_upgrade_status() {
    assert_eq!(
        mjpeg_request("127.0.0.1:8080"),
        b"GET /video HTTP/1.0\r\nHost: 127.0.0.1:8080\r\nConnection: close\r\n\r\n".to_vec()
    );
    assert!(upgrade_accepted(b"HTTP/1.1 101 Switching Protocols\r\n"));
    assert!(!upgrade_accepted(b"HTTP/1.1 400 Bad Request\r\n"));
}

#[test]
fn panel_starts_on_usb() {
    let p = ControlPanel::new();
    assert_eq!(p.mode, ConnectionMode::Usb);
    assert_eq!(p.phone_ip_input, "127.0.0.1");
    assert_eq!(p.status_msg, "Ready (USB Mode)");
}

#[test]
fn panel_switches_between_usb_and_wifi() {
    let mut s = ClientState::default();
    let mut p = ControlPanel::new();
    p.select_wifi(&mut s);
    assert_eq!(p.mode, ConnectionMode::Wifi);
    assert_eq!(p.phone_ip_input, "192.168.1.100");
    assert_eq!(s.phone_ip, "192.168.1.100");
    assert_eq!(s.connection_mode, ConnectionMode::Wifi);
    p.phone_ip_input = "10.1.1.1".to_string();
    p.select_usb(&mut s);
    assert_eq!(p.phone_ip_input, "127.0.0.1");
    assert_eq!(s.phone_ip, "127.0.0.1");
    assert_eq!(s.connection_mode, ConnectionMode::Usb);
    p.phone_ip_input = "10.2.2.2".to_string();
    p.select_wifi(&mut s);
    assert_eq!(s.phone_ip, "10.2.2.2");
    assert_eq!(s.wifi_ip, "192.168.1.100");
}

#[test]
fn panel_connect_trims_address() {
    let mut s = ClientState::default();
    let mut p = ControlPanel::new();
    p.phone_ip_input = "  10.0.0.7 \t".to_string();
    p.connect(&mut s);
    assert_eq!(s.phone_ip, "10.0.0.7");
    assert_eq!(s.wifi_ip, "10.0.0.7");
    assert_eq!(p.status_msg, "Connecting to 10.0.0.7");
    p.phone_ip_input = "\u{3000}10.0.0.8\u{a0}\u{2028}".to_string();
    p.connect(&mut s);
    assert_eq!(s.phone_ip, "10.0.0.8");
}

#[test]
fn fallback_address_is_trimmed() {
    let mut s = ClientState::default();
    set_fallback_ip(&mut s, " 192.168.0.9\n");
    assert_eq!(s.wifi_ip, "192.168.0.9");
    assert_eq!(trim_str("\u{85} é \u{205f}"), "é");
    assert_eq!(trim_str("   "), "");
    assert_eq!(trim_str("a b"), "a b");
}

#[test]
fn panel_commands_are_queued() {
    let mut s = ClientState::default();
    let shown = s.clone();
    assert!(!request_camera(&mut s, &shown, "back"));
    assert_eq!(s.pending_command, None);
    assert!(request_camera(&mut s, &shown, "front"));
    assert_eq!(s.pending_command, Some(b"camera=front".to_vec()));
    assert!(!request_resolution(&mut s, &shown, "1280x720"));
    assert!(request_resolution(&mut s, &shown, "1920x1080"));
    assert_eq!(s.pending_command, Some(b"resolution_str=1920x1080".to_vec()));
    assert!(request_rotation(&mut s, &shown, "90"));
    assert_eq!(s.pending_command, Some(b"rotation=90".to_vec()));
    request_exposure(&mut s, -5);
    assert_eq!(s.exposure, -5);
    assert_eq!(s.pending_command, Some(b"exposure_index=-5".to_vec()));
    request_exposure(&mut s, 12);
    assert_eq!(s.pending_command, Some(b"exposure_index=12".to_vec()));
    request_flash_toggle(&mut s);
    assert_eq!(s.pending_command, Some(b"flash=true".to_vec()));
    s.flash_enabled = true;
    request_flash_toggle(&mut s);
    assert_eq!(s.pending_command, Some(b"flash=false".to_vec()));
    request_protocol(&mut s, StreamProtocol::Mjpeg);
    assert_eq!(s.codec, "mjpeg");
    assert_eq!(s.pending_command, Some(b"stream_protocol=mjpeg".to_vec()));
}

#[test]
fn panel_choice_is_checked_against_what_it_shows() {
    let mut s = ClientState::default();
    let shown = s.clone();
    s.camera = "front".to_string();
    assert!(!request_camera(&mut s, &shown, "back"));
    assert_eq!(s.pending_command, None);
    s.camera = "back".to_string();
    let mut drawn = shown.clone();
    drawn.camera = "front".to_string();
    assert!(request_camera(&mut s, &drawn, "back"));
    assert_eq!(s.pending_command, Some(b"camera=back".to_vec()));
}

#[test]
fn queued_commands_read_back_as_their_field() {
    let mut s = ClientState::default();
    request_exposure(&mut s, i32::MIN);
    let c = s.pending_command.clone().unwrap();
    assert_eq!(query_to_update_fields(&c), vec![field("exposure_index", UpdateValue::Int(i32::MIN as i64))]);
    request_flash_toggle(&mut s);
    let c = s.pending_command.clone().unwrap();
    assert_eq!(query_to_update_fields(&c), vec![field("flash", UpdateValue::Flag(true))]);
    request_protocol(&mut s, StreamProtocol::Rtsp);
    let c = s.pending_command.clone().unwrap();
    assert_eq!(query_to_update_fields(&c), vec![field("stream_protocol", UpdateValue::Text(b"rtsp".to_vec()))]);
    let shown = s.clone();
    request_camera(&mut s, &shown, "front");
    let c = s.pending_command.clone().unwrap();
    assert_eq!(query_to_update_fields(&c), vec![field("camera", UpdateValue::Text(b"front".to_vec()))]);
}

#[test]
fn link_steps_without_auto_fallback_never_switch() {
    for mode in [ConnectionMode::Usb, ConnectionMode::Wifi] {
        let mut s = ClientState::default();
        s.auto_fallback = false;
        s.connection_mode = mode;
        s.pending_command = Some(b"rotation=90".to_vec());
        let mut sup = LinkSupervisor::new();
        for _ in 0..4 {
            let snap = take_snapshot(&mut s);
            assert_eq!(sup.on_event(&mut s, &snap, LinkEvent::Unreachable), LinkAction::Proceed);
            assert_eq!(sup.on_event(&mut s, &snap, LinkEvent::UsbBack), LinkAction::Proceed);
            sup.on_event(&mut s, &snap, LinkEvent::Opened);
            sup.on_event(&mut s, &snap, LinkEvent::CommandFailed);
            assert_eq!(s.pending_command, snap.command);
            sup.on_event(&mut s, &snap, LinkEvent::Closed);
        }
        assert_eq!(s.connection_mode, mode);
        assert_eq!(s.phone_ip, "127.0.0.1");
        assert_eq!(s.wifi_ip, "192.168.1.100");
    }
}

#[test]
fn link_step_checks_usb_only_from_wifi_fallback() {
    let mut s = ClientState::default();
    s.connection_mode = ConnectionMode::Wifi;
    s.phone_ip = "192.168.1.100".to_string();
    let mut sup = LinkSupervisor::new();
    let snap = take_snapshot(&mut s);
    assert_eq!(sup.on_event(&mut s, &snap, LinkEvent::Unreachable), LinkAction::CheckUsb);
    sup.on_event(&mut s, &snap, LinkEvent::UsbBack);
    assert_eq!(s.connection_mode, ConnectionMode::Usb);
    assert_eq!(s.phone_ip, "127.0.0.1");
    let snap2 = take_snapshot(&mut s);
    assert_eq!(sup.on_event(&mut s, &snap2, LinkEvent::Opened), LinkAction::Proceed);
    assert!(s.connected);
    assert_eq!(sup.open_link_ip, Some("127.0.0.1".to_string()));
}

#[test]
fn stream_round_plans() {
    let mut s = ClientState::default();
    assert!(matches!(plan_stream(&s), StreamPlan::Wait));
    s.connected = true;
    match plan_stream(&s) {
        StreamPlan::Rtsp { ip, port } => {
            assert_eq!(ip, "127.0.0.1");
            assert_eq!(port, 8554);
        }
        _ => panic!("expected an RTSP session"),
    }
    s.codec = "mjpeg".to_string();
    s.phone_ip = "10.0.0.3".to_string();
    match plan_stream(&s) {
        StreamPlan::Mjpeg { ip, port, request } => {
            assert_eq!(ip, "10.0.0.3");
            assert_eq!(port, 8080);
            assert_eq!(request, b"GET /video HTTP/1.0\r\nHost: 10.0.0.3:8080\r\nConnection: close\r\n\r\n".to_vec());
        }
        _ => panic!("expected the MJPEG stream"),
    }
    let opened = s.clone();
    assert!(session_current(&s, StreamProtocol::Mjpeg, "10.0.0.3"));
    s.codec = "rtsp".to_string();
    assert!(!session_current(&s, StreamProtocol::Mjpeg, "10.0.0.3"));
    let mut s2 = opened.clone();
    s2.phone_ip = "10.0.0.4".to_string();
    assert!(!session_current(&s2, StreamProtocol::Mjpeg, "10.0.0.3"));
    let mut s3 = opened;
    s3.connected = false;
    assert!(!session_current(&s3, StreamProtocol::Mjpeg, "10.0.0.3"));
}

#[test]
fn reported_protocol_text_selects_stream() {
    for (reported, expected) in [("RTSP", StreamProtocol::Rtsp), ("MJPEG", StreamProtocol::Mjpeg), ("Rtsp", StreamProtocol::Rtsp)] {
        let mut s = ClientState::default();
        apply_settings(&mut s, settings(reported, "AUTO", "640x480", Vec::new()));
        assert_eq!(select_protocol(&s.codec), expected);
        match (plan_stream(&s), expected) {
            (StreamPlan::Rtsp { .. }, StreamProtocol::Rtsp) => {}
            (StreamPlan::Mjpeg { .. }, StreamProtocol::Mjpeg) => {}
            _ => panic!("wrong stream for {}", reported),
        }
    }
}

# awc_gui

Desktop client for an Android phone used as a webcam. The phone serves its
camera as RTSP (H.264) or as an MJPEG HTTP stream, and takes settings over a
WebSocket; the client receives the stream, decodes it, publishes it to a
virtual camera and shows a preview with the camera controls.

## Layout

- `src/` — the verified library (Verus):
  - `text`: byte-level search, lines, white-space trimming and decimal numbers
    with the semantics of the `str` methods they stand for;
  - `mjpeg`: cutting JPEG frames out of an MJPEG byte stream;
  - `rtp`, `rtsp`, `base64`: NAL unit reassembly from interleaved RTP, the RTSP
    handshake and the SDP parameter sets;
  - `ws`: WebSocket framing of the control channel;
  - `pipeline`, `decode`: RGB/I420 to NV12 and RGBA conversions, and the JPEG
    and H.264 decoders (`zune-jpeg`, `image`, `openh264`) behind small
    trusted wrappers;
  - `state`, `link`, `controls`, `command`: the client state, the decisions of
    the control link (reconnection, USB/Wi-Fi fallback), the control panel's
    actions and the settings commands sent to the phone.
- `tests/` — tests on concrete values.
- `app/` — the program: sockets, threads, `adb`, the virtual camera device,
  JSON and the window.

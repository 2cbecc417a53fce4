//! Stream, protocol and control logic of the Android webcam desktop client.

pub mod text;
pub mod mjpeg;
pub mod base64;
pub mod bytes;
pub mod rtp;
pub mod pipeline;
pub mod decode;
pub mod ws;
pub mod rtsp;
pub mod state;
pub mod command;
pub mod link;
pub mod controls;

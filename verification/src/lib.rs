//! Wi-Fi Display mirroring: the verified protocol, media and pairing rules.
pub mod activation;
pub mod audio;
pub mod client;
pub mod connecting;
pub mod credentials;
pub mod dialogue;
pub mod fields;
pub mod helper;
pub mod hevc_color;
pub mod json;
pub mod latency;
pub mod measure;
pub mod media;
pub mod negotiation;
pub mod network;
pub mod number;
pub mod pairing;
pub mod parameter_set;
pub mod portal;
pub mod program;
pub mod readback;
pub mod rtsp;
pub mod search;
pub mod session;
pub mod stream_check;
pub mod text;
pub mod transport_clock;
pub mod way;
pub mod wfd;

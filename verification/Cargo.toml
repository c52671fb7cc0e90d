[package]
name = "peerdrop"
version = "0.1.0"
edition = "2021"
publish = false

[dependencies]
uuid = { version = "=1.27.0", features = ["v4", "serde"] }
web-sys = { version = "=0.3.106", features = [
    "BinaryType",
    "CloseEvent",
    "ErrorEvent",
    "Event",
    "MessageEvent",
    "RtcConfiguration",
    "RtcDataChannel",
    "RtcDataChannelEvent",
    "RtcDataChannelInit",
    "RtcIceCandidate",
    "RtcIceCandidateInit",
    "RtcPeerConnection",
    "RtcPeerConnectionIceEvent",
    "RtcSdpType",
    "RtcSessionDescriptionInit",
    "WebSocket",
    "Window",
] }
wasm-bindgen = "=0.2.129"
wasm-bindgen-futures = "*"
serde = { version = "=1.0.229", features = ["derive"] }
serde_json = "=1.0.151"
rmp-serde = "=1.3.1"
axum = { version = "=0.8.9", features = ["ws"] }
tokio = { version = "=1.53.2", features = ["rt-multi-thread", "macros", "sync"] }
futures-util = "=0.3.34"
clap = { version = "=4.6.7", features = ["derive"] }
tower-http = { version = "=0.7.1", features = ["fs"] }

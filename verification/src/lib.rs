//! UniFi camera FLV proxy: the protocol logic, verified.

pub mod amf;
pub mod announcement_laws;
pub mod answer_laws;
pub mod app;
pub mod avc;
pub mod base64;
pub mod builder_laws;
pub mod bytes;
pub mod calendar;
pub mod camera_identity;
pub mod camera_laws;
pub mod camera_listener;
pub mod capture_laws;
pub mod cert_gen;
pub mod cli;
pub mod config;
pub mod config_laws;
pub mod container_laws;
pub mod controller_laws;
pub mod decimal;
pub mod decision_laws;
pub mod defaults;
pub mod description_laws;
pub mod discovery_laws;
pub mod elevate;
pub mod envelope_laws;
pub mod flv_parser;
pub mod flv_video;
pub mod frame_laws;
pub mod http;
pub mod http_laws;
pub mod hub_laws;
pub mod ieee754;
pub mod json;
pub mod json_laws;
pub mod logging;
pub mod media_laws;
pub mod metadata_laws;
pub mod number_laws;
pub mod onvif_discovery;
pub mod onvif_responses;
pub mod onvif_server;
pub mod operation_laws;
pub mod probe_laws;
pub mod protect_controller;
pub mod protect_laws;
pub mod protect_listener;
pub mod protect_recon;
pub mod pump_laws;
pub mod random_laws;
pub mod reading_laws;
pub mod reply_laws;
pub mod request_laws;
pub mod rtp;
pub mod rtp_laws;
pub mod rtsp_laws;
pub mod rtsp_protocol;
pub mod rtsp_pump;
pub mod rtsp_server;
pub mod sdp;
pub mod server_stops;
pub mod service;
pub mod session_laws;
pub mod sha1;
pub mod startup_laws;
pub mod state_laws;
pub mod stream_state;
pub mod text;
pub mod text_laws;
pub mod time_laws;
pub mod tls_laws;
pub mod tls_schannel;
pub mod upgrade_laws;
pub mod video_laws;
pub mod web_laws;
pub mod wide;
pub mod word_laws;
pub mod ws;
pub mod xml;

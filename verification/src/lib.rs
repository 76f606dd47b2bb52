//! Verified core of a WebSocket gateway service.
pub mod answer;
pub mod connection;
pub mod event_engine;
pub mod http_client;
pub mod http_server;
pub mod session;
pub mod settings;
pub mod string_map;
pub mod text;
pub mod websocket_engine;
pub mod ws_engine;

pub mod wifi;
pub mod websocket;

//! Verified core of the OpenLCD display tool-chain: device protocols,
//! frames and layout, theme scenes, hardware-sensor selection and the
//! USBPcap capture decoder.

pub mod outside;
pub mod protocol;
pub mod frame;
pub mod layout;
pub mod theme;
pub mod text;
pub mod resolver;
pub mod pcap;
pub mod display;
pub mod device;
pub mod hwmon;
pub mod monitor;
pub mod kmex;
pub mod cg02kv;
pub mod render;

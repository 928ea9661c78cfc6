//! Decoding USBPcap captures of the display's USB traffic.
pub mod usbpcap;
pub mod capture;
pub mod jpeg;
pub mod media;
pub mod statistics;
pub mod report;
pub mod dump;

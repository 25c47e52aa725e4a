//! Flashing support library for Sinowealth 8051-class keyboard controllers.
//!
//! The crate holds the device-independent core of an in-system-programming
//! (ISP) tool: the platform and device catalogs, the Intel-HEX codec, the
//! reset-vector relocation transforms, the flash verifier, the HID report
//! descriptor introspector, the device resolver decisions, the mode-transition
//! state machine, and the ISP wire-protocol report builders and parsers.
//! All transport and file input/output is left to the surrounding program.

pub mod descriptor;
pub mod device_spec;
pub mod file_format;
pub mod ihex;
pub mod isp_device;
pub mod machine;
pub mod part;
pub mod platform_spec;
pub mod resolver;
pub mod util;

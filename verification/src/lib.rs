//! Smart-card I/O logic behind one small API: APDU values, the CCID codec, the T=1
//! block machine, and the policies that the runtime around them follows.

pub mod bytes;
pub mod ccid;
pub mod cli;
pub mod diagnostics;
pub mod error;
pub mod gates;
pub mod manifest;
pub mod facade;
pub mod model;
pub mod operation;
pub mod pcsc;
pub mod protocol;
pub mod source_scan;
pub mod quirk_rules;
pub mod quirk_table;
pub mod testing;
pub mod text;
pub mod usb;
pub mod virtual_reader;

pub use error::{Error, ErrorKind, Result};
pub use model::{Atr, Command, Response, StatusError, StatusWord};

//! Encoding and decoding of diagnostic service requests (ISO 14229-1).
//!
//! Each service codec turns raw request parts into a `Request`, decodes a
//! `Request` into a structured value, and writes a structured value back as
//! payload bytes. Field widths that the payload declares (the address and
//! length format identifier) are read from the bytes when decoding; a memory
//! definition of service 0x2C chooses them from its values when encoding.
pub mod error;
pub mod utils;
pub mod service;
pub mod alfi;
pub mod dynamic;
pub mod memory_location;
pub mod period;
pub mod tester_present;

pub use alfi::AddressAndLengthFormatIdentifier;
pub use dynamic::{DefinitionType, DynamicallyDID, DynamicallyDefineDID, DynamicallyMemAddr};
pub use error::Iso14229Error;
pub use memory_location::MemoryLocation;
pub use period::{ReadByPeriodIdData, TransmissionMode};
pub use service::{Configuration, Request, RequestData, Service, SubFunction};
pub use tester_present::{TesterPresent, TesterPresentType};

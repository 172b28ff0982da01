//! A bidirectional text codec for JA3 / JA3S TLS fingerprints.
//!
//! A fingerprint text is a fixed number of comma-separated fields (five for
//! the client form, three for the server form), each field a dash-separated
//! list of decimal codes.  Parsing turns such a text into a record of code
//! sequences; rendering produces exactly the inverse text.

pub mod codes;
pub mod decimal;
pub mod field;
pub mod fingerprint;
pub mod text;

pub use codes::{CipherSuite, Code, ECPointFormat, ExtensionType, NamedGroup, ProtocolVersion};
pub use fingerprint::{Error, Ja3, Ja3S};

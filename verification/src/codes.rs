//! The symbolic code types a fingerprint sequences: thin wrappers over a
//! fixed-width unsigned integer.  Every in-range value is valid; the types
//! are open code spaces, not closed enumerations.

use vstd::prelude::*;

verus! {

/// A fixed-width numeric code: total, lossless conversion in both
/// directions between the symbolic type and its underlying integer.
pub trait Code: Sized {
    /// The numeric code this value stands for.
    spec fn spec_val(&self) -> int;

    /// The largest code of this kind's width.
    spec fn spec_max() -> int;

    /// Every value's code lies within the kind's width.
    proof fn lemma_val_in_range(&self)
        ensures
            0 <= self.spec_val() <= Self::spec_max(),
    ;

    /// The largest code, as a machine integer.
    fn max_val() -> (m: u32)
        ensures
            m as int == Self::spec_max(),
            0 < Self::spec_max() <= 0xFFFF,
    ;

    /// The code for an in-range integer.
    fn of_val(v: u16) -> (c: Self)
        requires
            v as int <= Self::spec_max(),
        ensures
            c.spec_val() == v as int,
    ;

    /// The integer a code stands for.
    fn val(&self) -> (v: u16)
        ensures
            v as int == self.spec_val(),
    ;
}

/// A TLS protocol version code (16-bit).
#[derive(Clone, Copy, PartialEq, Eq, Structural, Debug)]
pub struct ProtocolVersion(pub u16);

/// A TLS cipher suite code (16-bit).
#[derive(Clone, Copy, PartialEq, Eq, Structural, Debug)]
pub struct CipherSuite(pub u16);

/// A TLS extension type code (16-bit).
#[derive(Clone, Copy, PartialEq, Eq, Structural, Debug)]
pub struct ExtensionType(pub u16);

/// A TLS named group (elliptic curve) code (16-bit).
#[derive(Clone, Copy, PartialEq, Eq, Structural, Debug)]
pub struct NamedGroup(pub u16);

/// A TLS elliptic curve point format code (8-bit).
#[derive(Clone, Copy, PartialEq, Eq, Structural, Debug)]
pub struct ECPointFormat(pub u8);

impl Code for ProtocolVersion {
    open spec fn spec_val(&self) -> int {
        self.0 as int
    }

    open spec fn spec_max() -> int {
        0xFFFF
    }

    proof fn lemma_val_in_range(&self) {
    }

    fn max_val() -> u32 {
        0xFFFF
    }

    fn of_val(v: u16) -> Self {
        ProtocolVersion(v)
    }

    fn val(&self) -> u16 {
        self.0
    }
}

impl Code for CipherSuite {
    open spec fn spec_val(&self) -> int {
        self.0 as int
    }

    open spec fn spec_max() -> int {
        0xFFFF
    }

    proof fn lemma_val_in_range(&self) {
    }

    fn max_val() -> u32 {
        0xFFFF
    }

    fn of_val(v: u16) -> Self {
        CipherSuite(v)
    }

    fn val(&self) -> u16 {
        self.0
    }
}

impl Code for ExtensionType {
    open spec fn spec_val(&self) -> int {
        self.0 as int
    }

    open spec fn spec_max() -> int {
        0xFFFF
    }

    proof fn lemma_val_in_range(&self) {
    }

    fn max_val() -> u32 {
        0xFFFF
    }

    fn of_val(v: u16) -> Self {
        ExtensionType(v)
    }

    fn val(&self) -> u16 {
        self.0
    }
}

impl Code for NamedGroup {
    open spec fn spec_val(&self) -> int {
        self.0 as int
    }

    open spec fn spec_max() -> int {
        0xFFFF
    }

    proof fn lemma_val_in_range(&self) {
    }

    fn max_val() -> u32 {
        0xFFFF
    }

    fn of_val(v: u16) -> Self {
        NamedGroup(v)
    }

    fn val(&self) -> u16 {
        self.0
    }
}

impl Code for ECPointFormat {
    open spec fn spec_val(&self) -> int {
        self.0 as int
    }

    open spec fn spec_max() -> int {
        0xFF
    }

    proof fn lemma_val_in_range(&self) {
    }

    fn max_val() -> u32 {
        0xFF
    }

    fn of_val(v: u16) -> Self {
        ECPointFormat(v as u8)
    }

    fn val(&self) -> u16 {
        self.0 as u16
    }
}

} // verus!

//! Classification of a candidate file as a recognized executable container.
//!
//! A file is recognized by its leading four bytes alone: the classification
//! looks at nothing but the bytes handed to it, so it is independent of any
//! file name, extension or permission bits by construction.

use vstd::prelude::*;

verus! {

/// True iff the four given bytes are one of the known executable-container
/// magic-number signatures: the 32-bit and 64-bit container forms in either
/// byte order, or the multi-architecture container.
pub open spec fn spec_is_magic_quad(b0: u8, b1: u8, b2: u8, b3: u8) -> bool {
    ||| (b0 == 0xFE && b1 == 0xED && b2 == 0xFA && b3 == 0xCE)
    ||| (b0 == 0xCE && b1 == 0xFA && b2 == 0xED && b3 == 0xFE)
    ||| (b0 == 0xFE && b1 == 0xED && b2 == 0xFA && b3 == 0xCF)
    ||| (b0 == 0xCF && b1 == 0xFA && b2 == 0xED && b3 == 0xFE)
    ||| (b0 == 0xCA && b1 == 0xFE && b2 == 0xBA && b3 == 0xBE)
}

/// True iff the byte sequence begins with a recognized magic-number
/// signature. A sequence shorter than four bytes — an empty or truncated
/// file — is never recognized.
pub open spec fn spec_is_macho_magic(bytes: Seq<u8>) -> bool {
    bytes.len() >= 4 && spec_is_magic_quad(bytes[0], bytes[1], bytes[2], bytes[3])
}

/// Classify leading file bytes. Reads at most the first four bytes of the
/// slice it is given.
pub fn is_macho_magic(bytes: &[u8]) -> (b: bool)
    ensures
        b == spec_is_macho_magic(bytes@),
{
    if bytes.len() < 4 {
        return false;
    }
    let b0 = bytes[0];
    let b1 = bytes[1];
    let b2 = bytes[2];
    let b3 = bytes[3];
    (b0 == 0xFE && b1 == 0xED && b2 == 0xFA && b3 == 0xCE) || (b0 == 0xCE && b1 == 0xFA && b2
        == 0xED && b3 == 0xFE) || (b0 == 0xFE && b1 == 0xED && b2 == 0xFA && b3 == 0xCF) || (b0
        == 0xCF && b1 == 0xFA && b2 == 0xED && b3 == 0xFE) || (b0 == 0xCA && b1 == 0xFE && b2
        == 0xBA && b3 == 0xBE)
}

/// A value whose bytes can be classified as an executable container.
pub trait FileType {
    /// The bytes the classification inspects.
    spec fn file_bytes(&self) -> Seq<u8>;

    /// True iff the value's bytes begin with a recognized signature.
    fn is_macho(&self) -> (b: bool)
        ensures
            b == spec_is_macho_magic(self.file_bytes()),
    ;
}

impl FileType for Vec<u8> {
    open spec fn file_bytes(&self) -> Seq<u8> {
        self@
    }

    fn is_macho(&self) -> (b: bool) {
        is_macho_magic(self.as_slice())
    }
}

} // verus!

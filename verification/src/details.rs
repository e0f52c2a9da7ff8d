//! The size class shown with a selected file's details.
//!
//! A file's size is displayed as whole bytes below one kibibyte, else in
//! kibibytes, else in mebibytes, the latter two with two decimal places.
//! The value is computed in integers: hundredths of the display unit,
//! rounded half up.

use vstd::prelude::*;

verus! {

/// The unit a file's size is displayed in.
#[derive(Clone, Copy, Debug, PartialEq, Eq, Structural)]
pub enum SizeClass {
    Bytes,
    Kibibytes,
    Mebibytes,
}

/// A file size prepared for display: whole bytes for `Bytes`, hundredths of
/// the unit for the other classes.
pub struct FileSize {
    pub class: SizeClass,
    pub value: u64,
}

/// The display class of a size of `len` bytes.
pub open spec fn size_class_of(len: u64) -> SizeClass {
    if len < 1024 {
        SizeClass::Bytes
    } else if len < 1048576 {
        SizeClass::Kibibytes
    } else {
        SizeClass::Mebibytes
    }
}

/// The displayed value: raw bytes, or hundredths of the unit rounded half
/// up.
pub open spec fn size_value_of(len: u64) -> int {
    if len < 1024 {
        len as int
    } else if len < 1048576 {
        (len * 100 + 512) / 1024
    } else {
        (len * 100 + 524288) / 1048576
    }
}

/// Classifies a size of `len` bytes for display.
pub fn classify_size(len: u64) -> (r: FileSize)
    ensures
        r.class == size_class_of(len),
        r.value == size_value_of(len),
{
    if len < 1024 {
        FileSize { class: SizeClass::Bytes, value: len }
    } else if len < 1048576 {
        let scaled: u128 = (len as u128) * 100 + 512;
        let v: u128 = scaled / 1024;
        proof {
            assert(v < 0x1_0000_0000_0000_0000) by (nonlinear_arith)
                requires
                    scaled == (len as u128) * 100 + 512 && v == scaled / 1024 && len
                        < 0x1_0000_0000_0000_0000,
            ;
        }
        FileSize { class: SizeClass::Kibibytes, value: v as u64 }
    } else {
        let scaled: u128 = (len as u128) * 100 + 524288;
        let v: u128 = scaled / 1048576;
        proof {
            assert(v < 0x1_0000_0000_0000_0000) by (nonlinear_arith)
                requires
                    scaled == (len as u128) * 100 + 524288 && v == scaled / 1048576 && len
                        < 0x1_0000_0000_0000_0000,
            ;
        }
        FileSize { class: SizeClass::Mebibytes, value: v as u64 }
    }
}

} // verus!

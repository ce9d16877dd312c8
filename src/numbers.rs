//! The fixed-point number encodings of the ICC format.
use vstd::prelude::*;

use crate::error::IccError;
use crate::reader::{be16, bound_check, read_i16_be, read_u16_be, signed16};

verus! {

/// A signed number with 16 integer and 16 fractional bits; its value is
/// `integer + decimal / 65535`.
#[derive(Debug, Clone, Copy, PartialEq, Eq, Structural)]
pub struct S15Fixed16Number {
    pub integer: i16,
    pub decimal: u16,
}

/// An unsigned number with 16 integer and 16 fractional bits; its value is
/// `integer + decimal / 65535`.
#[derive(Debug, Clone, Copy, PartialEq, Eq, Structural)]
pub struct U16Fixed16Number {
    pub integer: u16,
    pub decimal: u16,
}

/// An unsigned number below 2; its value is `decimal / 32767`.
#[derive(Debug, Clone, Copy, PartialEq, Eq, Structural)]
pub struct U1Fixed15Number {
    pub decimal: u16,
}

/// An unsigned number with 8 integer and 8 fractional bits; its value is
/// `integer + decimal / 255`.
#[derive(Debug, Clone, Copy, PartialEq, Eq, Structural)]
pub struct U8Fixed8Number {
    pub integer: u8,
    pub decimal: u8,
}

/// A CIE XYZ triple.
#[derive(Debug, Clone, Copy, PartialEq, Eq, Structural)]
pub struct XYZNumber {
    pub x: S15Fixed16Number,
    pub y: S15Fixed16Number,
    pub z: S15Fixed16Number,
}

/// The signed fixed-point number stored in the four bytes at `p`.
pub open spec fn s15_at(s: Seq<u8>, p: int) -> S15Fixed16Number {
    S15Fixed16Number {
        integer: signed16(be16(s, p)) as i16,
        decimal: be16(s, p + 2) as u16,
    }
}

/// The unsigned fixed-point number stored in the four bytes at `p`.
pub open spec fn u16f16_at(s: Seq<u8>, p: int) -> U16Fixed16Number {
    U16Fixed16Number { integer: be16(s, p) as u16, decimal: be16(s, p + 2) as u16 }
}

/// The XYZ triple stored in the twelve bytes at `p`.
pub open spec fn xyz_at(s: Seq<u8>, p: int) -> XYZNumber {
    XYZNumber { x: s15_at(s, p), y: s15_at(s, p + 4), z: s15_at(s, p + 8) }
}

impl S15Fixed16Number {
    /// `value * 65535`: the number's exact value over the denominator 65535.
    pub open spec fn scaled(self) -> int {
        self.integer as int * 65535 + self.decimal as int
    }

    pub fn new(integer: i16, decimal: u16) -> (r: Self)
        ensures
            r.integer == integer,
            r.decimal == decimal,
    {
        S15Fixed16Number { integer, decimal }
    }

    pub fn integer_part(&self) -> (r: i32)
        ensures
            r == self.integer as i32,
    {
        self.integer as i32
    }

    pub fn decimal(&self) -> (r: u32)
        ensures
            r == self.decimal as u32,
    {
        self.decimal as u32
    }
}

impl U16Fixed16Number {
    pub fn new(integer: u16, decimal: u16) -> (r: Self)
        ensures
            r.integer == integer,
            r.decimal == decimal,
    {
        U16Fixed16Number { integer, decimal }
    }

    pub fn integer_part(&self) -> (r: i32)
        ensures
            r == self.integer as i32,
    {
        self.integer as i32
    }

    pub fn decimal(&self) -> (r: u32)
        ensures
            r == self.decimal as u32,
    {
        self.decimal as u32
    }
}

impl U1Fixed15Number {
    pub fn new(decimal: u16) -> (r: Self)
        ensures
            r.decimal == decimal,
    {
        U1Fixed15Number { decimal }
    }

    pub fn integer_part(&self) -> (r: i32)
        ensures
            r == 0,
    {
        0
    }

    pub fn decimal(&self) -> (r: u32)
        ensures
            r == self.decimal as u32,
    {
        self.decimal as u32
    }
}

impl U8Fixed8Number {
    pub fn new(integer: u8, decimal: u8) -> (r: Self)
        ensures
            r.integer == integer,
            r.decimal == decimal,
    {
        U8Fixed8Number { integer, decimal }
    }

    pub fn integer_part(&self) -> (r: i32)
        ensures
            r == self.integer as i32,
    {
        self.integer as i32
    }

    pub fn decimal(&self) -> (r: u32)
        ensures
            r == self.decimal as u32,
    {
        self.decimal as u32
    }
}

/// The signed fixed-point number at `ptr`; the caller has checked the bounds.
pub fn read_s15_fixed16(data: &[u8], ptr: usize) -> (r: S15Fixed16Number)
    requires
        ptr + 4 <= data@.len(),
    ensures
        r == s15_at(data@, ptr as int),
{
    let _ = data.len();
    S15Fixed16Number { integer: read_i16_be(data, ptr), decimal: read_u16_be(data, ptr + 2) }
}

/// The unsigned fixed-point number at `ptr`; the caller has checked the bounds.
pub fn read_u16_fixed16(data: &[u8], ptr: usize) -> (r: U16Fixed16Number)
    requires
        ptr + 4 <= data@.len(),
    ensures
        r == u16f16_at(data@, ptr as int),
{
    let _ = data.len();
    U16Fixed16Number { integer: read_u16_be(data, ptr), decimal: read_u16_be(data, ptr + 2) }
}

/// The XYZ triple in the twelve bytes at `ptr`, or `OutOfBounds` when they
/// pass the end of `data`.
pub fn xyz_number(data: &[u8], ptr: usize) -> (r: Result<XYZNumber, IccError>)
    ensures
        r is Ok <==> ptr + 12 <= data@.len(),
        r is Ok ==> r->Ok_0 == xyz_at(data@, ptr as int),
        r is Err ==> r->Err_0 == (IccError::OutOfBounds {
            offset: ptr,
            size: 12,
            length: data@.len() as usize,
        }),
{
    let _ = data.len();
    match bound_check(data, ptr, 12) {
        Err(e) => Err(e),
        Ok(()) => {
            let x = read_s15_fixed16(data, ptr);
            let y = read_s15_fixed16(data, ptr + 4);
            let z = read_s15_fixed16(data, ptr + 8);
            Ok(XYZNumber { x, y, z })
        },
    }
}

} // verus!

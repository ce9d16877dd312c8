//! Decoding of one tag's payload from the bytes that begin at the tag.
use vstd::prelude::*;
use vstd::slice::slice_subrange;

use crate::error::{decode_error, IccError};
use crate::numbers::{
    read_s15_fixed16, read_u16_fixed16, s15_at, u16f16_at, xyz_at, xyz_number,
    S15Fixed16Number, U16Fixed16Number, XYZNumber,
};
use crate::reader::{
    be16, be32, be64, bound_check, latin1_field, read_ascii_string, read_byte, read_string,
    read_u16_be, read_u32_be, read_u64_be, utf16_lossy, utf16_lossy_text, utf8_field_text,
};
use crate::lut::{lut16_wf, lut8_wf, pow};
use crate::tags::{
    ChromaticityType, Clut, ColorNameWithData, ColorantTableType, Curve, CurveSetType,
    CurveStructure, Data, Descriptor, FormulaCurve, LocalizedUnicode, MClut, Mab, MatrixElement,
    Mba, MeasurementType, Mft1, Mft2, MultiLocalizedUnicodeType, MultiProcessElementsType,
    NamedColor2Type, OneDimensionalCurvesType, ParametricCurve, PositionNumber, Response16Number,
    ResponseCurveSet16, ViewingConditions,
};

verus! {

/// The payload kinds this decoder tells apart, by type signature.
#[derive(Debug, Clone, Copy, PartialEq, Eq, Structural)]
pub enum TagKind {
    Mft1,
    Mft2,
    Para,
    Parf,
    Sig,
    Xyz,
    Sf32,
    Uf32,
    Ui08,
    Ui16,
    Ui32,
    Ui64,
    Text,
    Desc,
    Chrm,
    Mluc,
    View,
    Meas,
    Curv,
    Mba,
    Mab,
    Rcs2,
    Crdi,
    DataTag,
    Clro,
    Clrt,
    Mpet,
    Cvst,
    Curf,
    Samf,
    Matf,
    Ncl2,
    Pseq,
    Unknown,
}

/// The kind that a type signature names.
pub open spec fn kind_of(t: Seq<char>) -> TagKind {
    if t == "mft1"@ {
        TagKind::Mft1
    } else if t == "mft2"@ {
        TagKind::Mft2
    } else if t == "para"@ {
        TagKind::Para
    } else if t == "parf"@ {
        TagKind::Parf
    } else if t == "sig "@ {
        TagKind::Sig
    } else if t == "XYZ "@ || t == "XYZ"@ {
        TagKind::Xyz
    } else if t == "sf32"@ {
        TagKind::Sf32
    } else if t == "uf32"@ {
        TagKind::Uf32
    } else if t == "ui08"@ {
        TagKind::Ui08
    } else if t == "ui16"@ {
        TagKind::Ui16
    } else if t == "ui32"@ {
        TagKind::Ui32
    } else if t == "ui64"@ {
        TagKind::Ui64
    } else if t == "text"@ {
        TagKind::Text
    } else if t == "desc"@ {
        TagKind::Desc
    } else if t == "chrm"@ {
        TagKind::Chrm
    } else if t == "mluc"@ || t == "vued"@ {
        TagKind::Mluc
    } else if t == "view"@ {
        TagKind::View
    } else if t == "meas"@ {
        TagKind::Meas
    } else if t == "curv"@ {
        TagKind::Curv
    } else if t == "mBA "@ {
        TagKind::Mba
    } else if t == "mAB "@ {
        TagKind::Mab
    } else if t == "rcs2"@ {
        TagKind::Rcs2
    } else if t == "crdi"@ {
        TagKind::Crdi
    } else if t == "data"@ {
        TagKind::DataTag
    } else if t == "clro"@ {
        TagKind::Clro
    } else if t == "clrt"@ {
        TagKind::Clrt
    } else if t == "mpet"@ {
        TagKind::Mpet
    } else if t == "cvst"@ {
        TagKind::Cvst
    } else if t == "curf"@ {
        TagKind::Curf
    } else if t == "samf"@ {
        TagKind::Samf
    } else if t == "matf"@ {
        TagKind::Matf
    } else if t == "ncl2"@ {
        TagKind::Ncl2
    } else if t == "pseq"@ {
        TagKind::Pseq
    } else {
        TagKind::Unknown
    }
}

fn same_text(t: &String, lit: &str) -> (r: bool)
    ensures
        r == (t@ == lit@),
{
    *t == lit.to_owned()
}

/// The kind that the type signature `t` names.
pub fn tag_kind(t: &str) -> (k: TagKind)
    ensures
        k == kind_of(t@),
{
    let t = t.to_owned();
    if same_text(&t, "mft1") {
        TagKind::Mft1
    } else if same_text(&t, "mft2") {
        TagKind::Mft2
    } else if same_text(&t, "para") {
        TagKind::Para
    } else if same_text(&t, "parf") {
        TagKind::Parf
    } else if same_text(&t, "sig ") {
        TagKind::Sig
    } else if same_text(&t, "XYZ ") || same_text(&t, "XYZ") {
        TagKind::Xyz
    } else if same_text(&t, "sf32") {
        TagKind::Sf32
    } else if same_text(&t, "uf32") {
        TagKind::Uf32
    } else if same_text(&t, "ui08") {
        TagKind::Ui08
    } else if same_text(&t, "ui16") {
        TagKind::Ui16
    } else if same_text(&t, "ui32") {
        TagKind::Ui32
    } else if same_text(&t, "ui64") {
        TagKind::Ui64
    } else if same_text(&t, "text") {
        TagKind::Text
    } else if same_text(&t, "desc") {
        TagKind::Desc
    } else if same_text(&t, "chrm") {
        TagKind::Chrm
    } else if same_text(&t, "mluc") || same_text(&t, "vued") {
        TagKind::Mluc
    } else if same_text(&t, "view") {
        TagKind::View
    } else if same_text(&t, "meas") {
        TagKind::Meas
    } else if same_text(&t, "curv") {
        TagKind::Curv
    } else if same_text(&t, "mBA ") {
        TagKind::Mba
    } else if same_text(&t, "mAB ") {
        TagKind::Mab
    } else if same_text(&t, "rcs2") {
        TagKind::Rcs2
    } else if same_text(&t, "crdi") {
        TagKind::Crdi
    } else if same_text(&t, "data") {
        TagKind::DataTag
    } else if same_text(&t, "clro") {
        TagKind::Clro
    } else if same_text(&t, "clrt") {
        TagKind::Clrt
    } else if same_text(&t, "mpet") {
        TagKind::Mpet
    } else if same_text(&t, "cvst") {
        TagKind::Cvst
    } else if same_text(&t, "curf") {
        TagKind::Curf
    } else if same_text(&t, "samf") {
        TagKind::Samf
    } else if same_text(&t, "matf") {
        TagKind::Matf
    } else if same_text(&t, "ncl2") {
        TagKind::Ncl2
    } else if same_text(&t, "pseq") {
        TagKind::Pseq
    } else {
        TagKind::Unknown
    }
}

/// Fails with `OutOfBounds` unless `count` items of `width` bytes from `ptr`
/// lie inside `buf`; the error gives the bytes asked for (at most
/// `usize::MAX`).
pub fn need(buf: &[u8], ptr: usize, count: u64, width: u64) -> (r: Result<(), IccError>)
    requires
        1 <= width <= 16,
    ensures
        r is Ok <==> ptr + count * width <= buf@.len(),
        r is Err ==> r->Err_0 is OutOfBounds,
{
    let len = buf.len();
    if count > (len as u64) / width || ptr > len {
        assert(ptr + count * width > buf@.len()) by (nonlinear_arith)
            requires
                count > (len as int) / (width as int) || ptr > len,
                width >= 1,
                len == buf@.len(),
        ;
        let size = if count > (usize::MAX as u64) / width {
            usize::MAX
        } else {
            assert(count * width <= usize::MAX) by (nonlinear_arith)
                requires
                    count <= (usize::MAX as int) / (width as int),
                    width >= 1,
            ;
            (count * width) as usize
        };
        return Err(IccError::OutOfBounds { offset: ptr, size, length: len });
    }
    assert(count * width <= len) by (nonlinear_arith)
        requires
            count <= (len as int) / (width as int),
            width >= 1,
    ;
    let size = (count * width) as usize;
    bound_check(buf, ptr, size)
}

/// `count` big-endian 16-bit values from `ptr`.
pub fn read_u16_array(data: &[u8], ptr: usize, count: usize) -> (r: Vec<u16>)
    requires
        ptr + 2 * count <= data@.len(),
    ensures
        r@.len() == count,
        forall|i: int| 0 <= i < count ==> #[trigger] r@[i] as int == be16(data@, ptr + 2 * i),
{
    let _ = data.len();
    let mut v: Vec<u16> = Vec::new();
    let mut i: usize = 0;
    while i < count
        invariant
            ptr + 2 * count <= data@.len() <= usize::MAX,
            i <= count,
            v@.len() == i,
            forall|j: int| 0 <= j < i ==> #[trigger] v@[j] as int == be16(data@, ptr + 2 * j),
        decreases count - i,
    {
        v.push(read_u16_be(data, ptr + 2 * i));
        i = i + 1;
    }
    v
}

/// `count` big-endian 32-bit values from `ptr`.
pub fn read_u32_array(data: &[u8], ptr: usize, count: usize) -> (r: Vec<u32>)
    requires
        ptr + 4 * count <= data@.len(),
    ensures
        r@.len() == count,
        forall|i: int| 0 <= i < count ==> #[trigger] r@[i] as int == be32(data@, ptr + 4 * i),
{
    let _ = data.len();
    let mut v: Vec<u32> = Vec::new();
    let mut i: usize = 0;
    while i < count
        invariant
            ptr + 4 * count <= data@.len() <= usize::MAX,
            i <= count,
            v@.len() == i,
            forall|j: int| 0 <= j < i ==> #[trigger] v@[j] as int == be32(data@, ptr + 4 * j),
        decreases count - i,
    {
        v.push(read_u32_be(data, ptr + 4 * i));
        i = i + 1;
    }
    v
}

/// `count` big-endian 64-bit values from `ptr`.
pub fn read_u64_array(data: &[u8], ptr: usize, count: usize) -> (r: Vec<u64>)
    requires
        ptr + 8 * count <= data@.len(),
    ensures
        r@.len() == count,
        forall|i: int| 0 <= i < count ==> #[trigger] r@[i] as int == be64(data@, ptr + 8 * i),
{
    let _ = data.len();
    let mut v: Vec<u64> = Vec::new();
    let mut i: usize = 0;
    while i < count
        invariant
            ptr + 8 * count <= data@.len() <= usize::MAX,
            i <= count,
            v@.len() == i,
            forall|j: int| 0 <= j < i ==> #[trigger] v@[j] as int == be64(data@, ptr + 8 * j),
        decreases count - i,
    {
        v.push(read_u64_be(data, ptr + 8 * i));
        i = i + 1;
    }
    v
}

/// `count` signed fixed-point numbers from `ptr`.
pub fn read_s15_array(data: &[u8], ptr: usize, count: usize) -> (r: Vec<S15Fixed16Number>)
    requires
        ptr + 4 * count <= data@.len(),
    ensures
        r@.len() == count,
        forall|i: int| 0 <= i < count ==> #[trigger] r@[i] == s15_at(data@, ptr + 4 * i),
{
    let _ = data.len();
    let mut v: Vec<S15Fixed16Number> = Vec::new();
    let mut i: usize = 0;
    while i < count
        invariant
            ptr + 4 * count <= data@.len() <= usize::MAX,
            i <= count,
            v@.len() == i,
            forall|j: int| 0 <= j < i ==> #[trigger] v@[j] == s15_at(data@, ptr + 4 * j),
        decreases count - i,
    {
        v.push(read_s15_fixed16(data, ptr + 4 * i));
        i = i + 1;
    }
    v
}

/// `count` unsigned fixed-point numbers from `ptr`.
pub fn read_u16f16_array(data: &[u8], ptr: usize, count: usize) -> (r: Vec<U16Fixed16Number>)
    requires
        ptr + 4 * count <= data@.len(),
    ensures
        r@.len() == count,
        forall|i: int| 0 <= i < count ==> #[trigger] r@[i] == u16f16_at(data@, ptr + 4 * i),
{
    let _ = data.len();
    let mut v: Vec<U16Fixed16Number> = Vec::new();
    let mut i: usize = 0;
    while i < count
        invariant
            ptr + 4 * count <= data@.len() <= usize::MAX,
            i <= count,
            v@.len() == i,
            forall|j: int| 0 <= j < i ==> #[trigger] v@[j] == u16f16_at(data@, ptr + 4 * j),
        decreases count - i,
    {
        v.push(read_u16_fixed16(data, ptr + 4 * i));
        i = i + 1;
    }
    v
}

/// `count` XYZ triples from `ptr`.
pub fn read_xyz_array(data: &[u8], ptr: usize, count: usize) -> (r: Vec<XYZNumber>)
    requires
        ptr + 12 * count <= data@.len(),
    ensures
        r@.len() == count,
        forall|i: int| 0 <= i < count ==> #[trigger] r@[i] == xyz_at(data@, ptr + 12 * i),
{
    let _ = data.len();
    let mut v: Vec<XYZNumber> = Vec::new();
    let mut i: usize = 0;
    while i < count
        invariant
            ptr + 12 * count <= data@.len() <= usize::MAX,
            i <= count,
            v@.len() == i,
            forall|j: int| 0 <= j < i ==> #[trigger] v@[j] == xyz_at(data@, ptr + 12 * j),
        decreases count - i,
    {
        let x = read_s15_fixed16(data, ptr + 12 * i);
        let y = read_s15_fixed16(data, ptr + 12 * i + 4);
        let z = read_s15_fixed16(data, ptr + 12 * i + 8);
        v.push(XYZNumber { x, y, z });
        i = i + 1;
    }
    v
}

/// The `len` bytes from `ptr`, copied.
pub fn read_bytes_as_vec(data: &[u8], ptr: usize, len: usize) -> (r: Vec<u8>)
    requires
        ptr + len <= data@.len(),
    ensures
        r@ == data@.subrange(ptr as int, ptr + len),
{
    let _ = data.len();
    let mut v: Vec<u8> = Vec::new();
    let mut i: usize = 0;
    while i < len
        invariant
            ptr + len <= data@.len() <= usize::MAX,
            i <= len,
            v@ == data@.subrange(ptr as int, ptr + i),
        decreases len - i,
    {
        v.push(read_byte(data, ptr + i));
        i = i + 1;
        assert(v@ =~= data@.subrange(ptr as int, ptr + i));
    }
    v
}

/// The type signature at `p`: four characters, or the three after `p` when the
/// four give an empty string.
pub open spec fn type_text(d: Seq<u8>, p: int) -> Seq<char> {
    let t4 = utf8_field_text(d.subrange(p, p + 4));
    if t4.len() == 0 {
        utf8_field_text(d.subrange(p + 1, p + 4))
    } else {
        t4
    }
}

/// Reads the type signature at `ptr`.
pub fn read_data_type(data: &[u8], ptr: usize) -> (r: Result<String, IccError>)
    ensures
        r is Ok <==> ptr + 4 <= data@.len(),
        r is Ok ==> r->Ok_0@ == type_text(data@, ptr as int),
        r is Err ==> r->Err_0 is OutOfBounds,
{
    let _ = data.len();
    match bound_check(data, ptr, 4) {
        Err(e) => Err(e),
        Ok(()) => {
            let s = read_string(data, ptr, 4);
            if s.as_str().is_empty() {
                Ok(read_string(data, ptr + 1, 3))
            } else {
                Ok(s)
            }
        },
    }
}

/// Number of items of `w` bytes read from offset 8 while the offset is below
/// `length`.
pub open spec fn elems(length: int, w: int) -> int {
    if length <= 8 {
        0
    } else {
        (length - 8 + w - 1) / w
    }
}

/// Reads items of `w` bytes from offset 8 while the offset is below `length`:
/// how many there are.
fn count_from_8(length: usize, w: usize) -> (r: usize)
    requires
        1 <= w <= 12,
    ensures
        r == elems(length as int, w as int),
        8 + w * r < length + w + 8,
{
    if length <= 8 {
        0
    } else {
        let c = (length - 8) / w + if (length - 8) % w == 0 {
            0
        } else {
            1
        };
        assert(c == (length - 8 + w - 1) / (w as int)) by (nonlinear_arith)
            requires
                c == (length - 8) / (w as int) + if (length - 8) % (w as int) == 0 {
                    0int
                } else {
                    1int
                },
                1 <= w,
                length > 8,
        ;
        assert(w * c < length + w) by (nonlinear_arith)
            requires
                c == (length - 8 + w - 1) / (w as int),
                1 <= w,
                length > 8,
        ;
        c
    }
}

pub open spec fn curv_ok(d: Seq<u8>, r: Data) -> bool {
    match r {
        Data::Curve(v) => v@.len() == be32(d, 8) && forall|i: int|
            0 <= i < v@.len() ==> #[trigger] v@[i] as int == be16(d, 12 + 2 * i),
        _ => false,
    }
}

/// What decoding a "curv" tag gives.
pub open spec fn curv_result(d: Seq<u8>, r: Result<Data, IccError>) -> bool {
    &&& (r is Ok <==> (12 <= d.len() && 12 + 2 * be32(d, 8) <= d.len()))
    &&& (r is Ok ==> curv_ok(d, r->Ok_0))
    &&& (r is Err ==> r->Err_0 is OutOfBounds)
}

/// A "curv" tag: a count at offset 8 and that many 16-bit samples.
fn decode_curv(data: &[u8]) -> (r: Result<Data, IccError>)
    ensures
        curv_result(data@, r),
{
    bound_check(data, 8, 4)?;
    let count = read_u32_be(data, 8) as u64;
    need(data, 12, count, 2)?;
    Ok(Data::Curve(read_u16_array(data, 12, count as usize)))
}

/// Items of `w` bytes from offset 8 while the offset is below `length` fit.
pub open spec fn array_fits(d: Seq<u8>, length: int, w: int) -> bool {
    8 + w * elems(length, w) <= d.len()
}

pub open spec fn array_ok(d: Seq<u8>, length: int, k: TagKind, r: Data) -> bool {
    match k {
        TagKind::Xyz => match r {
            Data::XYZNumberArray(v) => v@.len() == elems(length, 12) && forall|i: int|
                0 <= i < v@.len() ==> #[trigger] v@[i] == xyz_at(d, 8 + 12 * i),
            _ => false,
        },
        TagKind::Sf32 => match r {
            Data::S15Fixed16NumberArray(v) => v@.len() == elems(length, 4) && forall|i: int|
                0 <= i < v@.len() ==> #[trigger] v@[i] == s15_at(d, 8 + 4 * i),
            _ => false,
        },
        TagKind::Uf32 => match r {
            Data::U16Fixed16NumberArray(v) => v@.len() == elems(length, 4) && forall|i: int|
                0 <= i < v@.len() ==> #[trigger] v@[i] == u16f16_at(d, 8 + 4 * i),
            _ => false,
        },
        TagKind::Ui16 => match r {
            Data::UInt16NumberArray(v) => v@.len() == elems(length, 2) && forall|i: int|
                0 <= i < v@.len() ==> #[trigger] v@[i] as int == be16(d, 8 + 2 * i),
            _ => false,
        },
        TagKind::Ui32 => match r {
            Data::UInt32NumberArray(v) => v@.len() == elems(length, 4) && forall|i: int|
                0 <= i < v@.len() ==> #[trigger] v@[i] as int == be32(d, 8 + 4 * i),
            _ => false,
        },
        TagKind::Ui64 => match r {
            Data::UInt64NumberArray(v) => v@.len() == elems(length, 8) && forall|i: int|
                0 <= i < v@.len() ==> #[trigger] v@[i] as int == be64(d, 8 + 8 * i),
            _ => false,
        },
        _ => false,
    }
}

/// Width of one item of an array tag kind.
pub open spec fn array_width(k: TagKind) -> int {
    match k {
        TagKind::Xyz => 12,
        TagKind::Ui16 => 2,
        TagKind::Ui64 => 8,
        _ => 4,
    }
}

pub open spec fn is_array_kind(k: TagKind) -> bool {
    k == TagKind::Xyz || k == TagKind::Sf32 || k == TagKind::Uf32 || k == TagKind::Ui16 || k
        == TagKind::Ui32 || k == TagKind::Ui64
}

/// What decoding one of the array tags ("XYZ ", "sf32", "uf32", "ui16", "ui32", "ui64") gives.
pub open spec fn array_result(d: Seq<u8>, length: usize, k: TagKind, r: Result<Data, IccError>) -> bool {
    &&& (r is Ok <==> array_fits(d, length as int, array_width(k)))
    &&& (r is Ok ==> array_ok(d, length as int, k, r->Ok_0))
    &&& (r is Err ==> r->Err_0 is OutOfBounds)
}

/// The array tags: items from offset 8 while the offset is below `length`.
fn decode_array(data: &[u8], length: usize, k: TagKind) -> (r: Result<Data, IccError>)
    requires
        is_array_kind(k),
    ensures
        array_result(data@, length, k, r),
{
    let w: usize = match k {
        TagKind::Xyz => 12,
        TagKind::Ui16 => 2,
        TagKind::Ui64 => 8,
        _ => 4,
    };
    let count = count_from_8(length, w);
    let len = data.len();
    if len < 8 || count > (len - 8) / w {
        proof {
            if len >= 8 {
                assert(8 + w * count > len) by (nonlinear_arith)
                    requires
                        count > (len - 8) / (w as int),
                        w >= 1,
                ;
            }
        }
        return Err(IccError::OutOfBounds { offset: 8, size: len, length: len });
    }
    assert(8 + w * count <= len) by (nonlinear_arith)
        requires
            count <= (len - 8) / (w as int),
            w >= 1,
            len >= 8,
    ;
    match k {
        TagKind::Xyz => Ok(Data::XYZNumberArray(read_xyz_array(data, 8, count))),
        TagKind::Sf32 => Ok(Data::S15Fixed16NumberArray(read_s15_array(data, 8, count))),
        TagKind::Uf32 => Ok(Data::U16Fixed16NumberArray(read_u16f16_array(data, 8, count))),
        TagKind::Ui16 => Ok(Data::UInt16NumberArray(read_u16_array(data, 8, count))),
        TagKind::Ui32 => Ok(Data::UInt32NumberArray(read_u32_array(data, 8, count))),
        _ => Ok(Data::UInt64NumberArray(read_u64_array(data, 8, count))),
    }
}

proof fn lemma_pow_monotone(g: int, a: nat, b: nat)
    requires
        g >= 1,
        a <= b,
    ensures
        pow(g, a) <= pow(g, b),
    decreases b,
{
    if a < b {
        lemma_pow_monotone(g, a, (b - 1) as nat);
        crate::lut::lemma_pow_positive(g, (b - 1) as nat);
        assert(pow(g, (b - 1) as nat) <= pow(g, (b - 1) as nat) * g) by (nonlinear_arith)
            requires
                g >= 1,
                pow(g, (b - 1) as nat) >= 1,
        ;
    }
}

/// `g^n * out` when it is at most `cap`; `None` when it is larger.
fn grid_size(g: u8, n: u8, out: u8, cap: usize) -> (r: Option<usize>)
    ensures
        r is Some ==> r->0 == pow(g as int, n as nat) * out as int,
        r is None ==> pow(g as int, n as nat) * out as int > cap,
{
    if out == 0 {
        assert(pow(g as int, n as nat) * 0 == 0);
        return Some(0);
    }
    let mut c: u128 = 1;
    let mut i: u8 = 0;
    while i < n
        invariant
            i <= n,
            c == pow(g as int, i as nat),
            c <= cap || c == 1,
            out >= 1,
        decreases n - i,
    {
        let ghost c0 = c;
        assert(c * (g as u128) <= (usize::MAX as int) * 255) by (nonlinear_arith)
            requires
                c <= usize::MAX,
                g <= 255,
        ;
        c = c * (g as u128);
        i = i + 1;
        if c > cap as u128 {
            proof {
                if g == 0 {
                    assert(c0 * 0 == 0);
                }
                lemma_pow_monotone(g as int, i as nat, n as nat);
                assert(pow(g as int, n as nat) * out as int >= pow(g as int, n as nat)) by (
                nonlinear_arith)
                    requires
                        out >= 1,
                        pow(g as int, n as nat) >= 0,
                ;
            }
            return None;
        }
    }
    assert(c * (out as u128) <= (usize::MAX as int) * 255) by (nonlinear_arith)
        requires
            c <= usize::MAX,
            out <= 255,
    ;
    let total = c * (out as u128);
    if total > cap as u128 {
        None
    } else {
        Some(total as usize)
    }
}

/// Size of the grid table of a lut tag.
pub open spec fn mft_clut_count(d: Seq<u8>) -> int {
    pow(d[10] as int, d[8] as nat) * d[9] as int
}

pub open spec fn mft1_fits(d: Seq<u8>) -> bool {
    &&& 48 <= d.len()
    &&& 48 + d[8] as int * 256 + mft_clut_count(d) + d[9] as int * 256 <= d.len()
}

pub open spec fn mft2_fits(d: Seq<u8>) -> bool {
    &&& 52 <= d.len()
    &&& 52 + 2 * (d[8] as int * be16(d, 48) + mft_clut_count(d) + d[9] as int * be16(d, 50))
        <= d.len()
}

/// The header fields that lut8 and lut16 tags share.
pub open spec fn mft_header_ok(
    d: Seq<u8>,
    input_channels: u8,
    output_channels: u8,
    grid: u8,
    e: Seq<S15Fixed16Number>,
) -> bool {
    &&& input_channels == d[8]
    &&& output_channels == d[9]
    &&& grid == d[10]
    &&& e.len() == 9
    &&& forall|i: int| 0 <= i < 9 ==> #[trigger] e[i] == s15_at(d, 12 + 4 * i)
}

pub open spec fn mft1_ok(d: Seq<u8>, m: Mft1) -> bool {
    let a = 48 + d[8] as int * 256;
    let b = a + mft_clut_count(d);
    &&& mft_header_ok(d, m.input_channels, m.output_channels, m.number_of_clut_grid_points, m.e_params@)
    &&& m.input_table@ == d.subrange(48, a)
    &&& m.clut_values@ == d.subrange(a, b)
    &&& m.output_table@ == d.subrange(b, b + d[9] as int * 256)
}

pub open spec fn mft2_ok(d: Seq<u8>, m: Mft2) -> bool {
    let ni = d[8] as int * be16(d, 48);
    let nc = mft_clut_count(d);
    let no = d[9] as int * be16(d, 50);
    &&& mft_header_ok(d, m.input_channels, m.output_channels, m.number_of_clut_grid_points, m.e_params@)
    &&& m.input_table_enteries as int == be16(d, 48)
    &&& m.output_table_enteries as int == be16(d, 50)
    &&& m.input_table@.len() == ni
    &&& m.clut_values@.len() == nc
    &&& m.output_table@.len() == no
    &&& forall|i: int| 0 <= i < ni ==> #[trigger] m.input_table@[i] as int == be16(d, 52 + 2 * i)
    &&& forall|i: int|
        0 <= i < nc ==> #[trigger] m.clut_values@[i] as int == be16(d, 52 + 2 * ni + 2 * i)
    &&& forall|i: int|
        0 <= i < no ==> #[trigger] m.output_table@[i] as int == be16(
            d,
            52 + 2 * (ni + nc) + 2 * i,
        )
}

/// What decoding a "mft1" (lut8) tag gives.
/// A lut8 header declares no zero size: its grid has points.
pub open spec fn mft1_sizes_ok(d: Seq<u8>) -> bool {
    d[10] != 0
}

/// A lut16 header declares no zero size: its grid has points and both curve
/// sets have entries.
pub open spec fn mft2_sizes_ok(d: Seq<u8>) -> bool {
    d[10] != 0 && be16(d, 48) != 0 && be16(d, 50) != 0
}

pub open spec fn mft1_result(d: Seq<u8>, r: Result<Data, IccError>) -> bool {
    &&& (r is Ok <==> mft1_fits(d) && mft1_sizes_ok(d))
    &&& (r is Ok ==> (match r->Ok_0 {
        Data::Lut8(m) => mft1_ok(d, m) && (1 <= m.input_channels <= 4 && 1
            <= m.output_channels ==> lut8_wf(m)),
        _ => false,
    }))
    &&& (r is Err && d.len() < 48 ==> r->Err_0 is OutOfBounds)
    &&& (r is Err && d.len() >= 48 && !mft1_sizes_ok(d) ==> r->Err_0 is DivideByZero)
    &&& (r is Err && d.len() >= 48 && mft1_sizes_ok(d) ==> r->Err_0 is DataShortage)
}

/// A "mft1" (lut8) tag.
fn decode_mft1(data: &[u8]) -> (r: Result<Data, IccError>)
    ensures
        mft1_result(data@, r),
{
    let len = data.len();
    bound_check(data, 0, 48)?;
    let input_channels = read_byte(data, 8);
    let output_channels = read_byte(data, 9);
    let number_of_clut_grid_points = read_byte(data, 10);
    if number_of_clut_grid_points == 0 {
        return Err(IccError::DivideByZero);
    }
    let e_params = read_s15_array(data, 12, 9);
    let clut_size = match grid_size(number_of_clut_grid_points, input_channels, output_channels, len) {
        Some(c) => c,
        None => {
            return Err(IccError::DataShortage { entries: usize::MAX, width: 1, length: len - 48 });
        },
    };
    let ins = input_channels as usize * 256;
    let outs = output_channels as usize * 256;
    if clut_size > len - 48 || ins + outs > len - 48 - clut_size {
        let entries = if clut_size > usize::MAX - ins - outs {
            usize::MAX
        } else {
            ins + outs + clut_size
        };
        return Err(IccError::DataShortage { entries, width: 1, length: len - 48 });
    }
    let input_table = read_bytes_as_vec(data, 48, ins);
    let clut_values = read_bytes_as_vec(data, 48 + ins, clut_size);
    let output_table = read_bytes_as_vec(data, 48 + ins + clut_size, outs);
    Ok(
        Data::Lut8(
            Mft1 {
                input_channels,
                output_channels,
                number_of_clut_grid_points,
                e_params,
                input_table,
                clut_values,
                output_table,
            },
        ),
    )
}

/// What decoding a "mft2" (lut16) tag gives.
pub open spec fn mft2_result(d: Seq<u8>, r: Result<Data, IccError>) -> bool {
    &&& (r is Ok <==> mft2_fits(d) && mft2_sizes_ok(d))
    &&& (r is Ok ==> (match r->Ok_0 {
        Data::Lut16(m) => mft2_ok(d, m) && (1 <= m.input_channels <= 4 && 1
            <= m.output_channels ==> lut16_wf(m)),
        _ => false,
    }))
    &&& (r is Err && d.len() < 52 ==> r->Err_0 is OutOfBounds)
    &&& (r is Err && d.len() >= 52 && !mft2_sizes_ok(d) ==> r->Err_0 is DivideByZero)
    &&& (r is Err && d.len() >= 52 && mft2_sizes_ok(d) ==> r->Err_0 is DataShortage)
}

/// A "mft2" (lut16) tag.
fn decode_mft2(data: &[u8]) -> (r: Result<Data, IccError>)
    ensures
        mft2_result(data@, r),
{
    let len = data.len();
    bound_check(data, 0, 52)?;
    let input_channels = read_byte(data, 8);
    let output_channels = read_byte(data, 9);
    let number_of_clut_grid_points = read_byte(data, 10);
    let e_params = read_s15_array(data, 12, 9);
    let input_table_enteries = read_u16_be(data, 48);
    let output_table_enteries = read_u16_be(data, 50);
    if number_of_clut_grid_points == 0 || input_table_enteries == 0 || output_table_enteries == 0 {
        return Err(IccError::DivideByZero);
    }
    let clut_size = match grid_size(number_of_clut_grid_points, input_channels, output_channels, len) {
        Some(c) => c,
        None => {
            return Err(IccError::DataShortage { entries: usize::MAX, width: 2, length: len - 52 });
        },
    };
    assert(input_channels as usize * input_table_enteries as usize <= 255 * 65535) by (
    nonlinear_arith);
    assert(output_channels as usize * output_table_enteries as usize <= 255 * 65535) by (
    nonlinear_arith);
    let ins = input_channels as usize * input_table_enteries as usize;
    let outs = output_channels as usize * output_table_enteries as usize;
    if clut_size > (len - 52) / 2 || ins + outs > (len - 52) / 2 - clut_size {
        let entries = if clut_size > usize::MAX - ins - outs {
            usize::MAX
        } else {
            ins + outs + clut_size
        };
        return Err(IccError::DataShortage { entries, width: 2, length: len - 52 });
    }
    let input_table = read_u16_array(data, 52, ins);
    let clut_values = read_u16_array(data, 52 + 2 * ins, clut_size);
    let output_table = read_u16_array(data, 52 + 2 * (ins + clut_size), outs);
    let ghost d = data@;
    let ghost ni = ins as int;
    let ghost nc = clut_size as int;
    assert forall|i: int| 0 <= i < nc implies #[trigger] clut_values@[i] as int == be16(
        d,
        52 + 2 * ni + 2 * i,
    ) by {
        assert(52 + 2 * ins + 2 * i == 52 + 2 * ni + 2 * i);
    }
    Ok(
        Data::Lut16(
            Mft2 {
                input_channels,
                output_channels,
                number_of_clut_grid_points,
                e_params,
                input_table_enteries,
                output_table_enteries,
                input_table,
                clut_values,
                output_table,
            },
        ),
    )
}

/// A "text" tag: characters from offset 8 to the tag's end or a zero byte.
fn decode_text(data: &[u8], length: usize) -> (r: Data)
    requires
        8 <= length <= data@.len(),
    ensures
        r matches Data::ASCII(t) && t@ == latin1_field(data@.subrange(8, length as int)),
{
    Data::ASCII(read_ascii_string(data, 8, length - 8))
}

/// What decoding a "sig " tag gives.
pub open spec fn sig_result(d: Seq<u8>, r: Result<Data, IccError>) -> bool {
    &&& (r is Ok <==> 12 <= d.len())
    &&& (r is Ok ==> (r->Ok_0 matches Data::ASCII(t) && t@ == latin1_field(d.subrange(8, 12))))
    &&& (r is Err ==> r->Err_0 is OutOfBounds)
}

/// A "sig " tag: a four-character signature at offset 8.
fn decode_sig(data: &[u8]) -> (r: Result<Data, IccError>)
    ensures
        sig_result(data@, r),
{
    bound_check(data, 8, 4)?;
    Ok(Data::ASCII(read_ascii_string(data, 8, 4)))
}

/// What decoding a "data" tag gives.
pub open spec fn data_result(d: Seq<u8>, length: usize, r: Result<Data, IccError>) -> bool {
    &&& (r is Ok <==> 12 <= length)
    &&& (r is Ok && be32(d, 8) == 0 ==> (r->Ok_0 matches Data::ASCII(t) && t@ == latin1_field(
        d.subrange(12, length as int),
    )))
    &&& (r is Ok && be32(d, 8) != 0 ==> (r->Ok_0 matches Data::Binary(b) && b@
        == d.subrange(12, length as int)))
    &&& (r is Err ==> r->Err_0 is OutOfBounds)
}

/// A "data" tag: a flag at offset 8, then text (flag 0) or binary bytes.
fn decode_data(data: &[u8], length: usize) -> (r: Result<Data, IccError>)
    requires
        8 <= length <= data@.len(),
    ensures
        data_result(data@, length, r),
{
    if length < 12 {
        return Err(IccError::OutOfBounds { offset: 8, size: 4, length });
    }
    let flag = read_u32_be(data, 8);
    if flag == 0 {
        Ok(Data::ASCII(read_ascii_string(data, 12, length - 12)))
    } else {
        Ok(Data::Binary(read_bytes_as_vec(data, 12, length - 12)))
    }
}

/// What decoding a "view" tag gives.
pub open spec fn view_result(d: Seq<u8>, r: Result<Data, IccError>) -> bool {
    &&& (r is Ok <==> 40 <= d.len())
    &&& (r is Ok ==> r->Ok_0 == Data::ViewConditions(
        ViewingConditions {
            illuminant: xyz_at(d, 8),
            surround: xyz_at(d, 20),
            illuminant_type: be32(d, 32) as u32,
        },
    ))
    &&& (r is Err ==> r->Err_0 is OutOfBounds)
}

/// A "view" tag: illuminant and surround triples and the illuminant type.
fn decode_view(data: &[u8]) -> (r: Result<Data, IccError>)
    ensures
        view_result(data@, r),
{
    bound_check(data, 8, 32)?;
    let illuminant = xyz_number(data, 8)?;
    let surround = xyz_number(data, 20)?;
    let illuminant_type = read_u32_be(data, 32);
    Ok(Data::ViewConditions(ViewingConditions { illuminant, surround, illuminant_type }))
}

/// What decoding a "meas" tag gives.
pub open spec fn meas_result(d: Seq<u8>, r: Result<Data, IccError>) -> bool {
    &&& (r is Ok <==> 36 <= d.len())
    &&& (r is Ok ==> r->Ok_0 == Data::Measurement(
        MeasurementType {
            standard_observer: be32(d, 8) as u32,
            measurement_backing: xyz_at(d, 12),
            measurement_geometry: be32(d, 24) as u32,
            measurement_flare: u16f16_at(d, 28),
            standard_illuminant: be32(d, 32) as u32,
        },
    ))
    &&& (r is Err ==> r->Err_0 is OutOfBounds)
}

/// A "meas" tag: observer, backing, geometry, flare and illuminant.
fn decode_meas(data: &[u8]) -> (r: Result<Data, IccError>)
    ensures
        meas_result(data@, r),
{
    bound_check(data, 8, 28)?;
    let standard_observer = read_u32_be(data, 8);
    let measurement_backing = xyz_number(data, 12)?;
    let measurement_geometry = read_u32_be(data, 24);
    let measurement_flare = read_u16_fixed16(data, 28);
    let standard_illuminant = read_u32_be(data, 32);
    Ok(
        Data::Measurement(
            MeasurementType {
                standard_observer,
                measurement_backing,
                measurement_geometry,
                measurement_flare,
                standard_illuminant,
            },
        ),
    )
}

/// Number of 8-byte coordinate pairs of a "chrm" tag.
pub open spec fn chrm_pairs(length: int) -> int {
    if length <= 12 {
        0
    } else {
        (length - 12 + 7) / 8
    }
}

/// What decoding a "chrm" tag gives.
pub open spec fn chrm_result(d: Seq<u8>, length: usize, r: Result<Data, IccError>) -> bool {
    &&& (r is Ok <==> 12 <= d.len() && 12 + 8 * chrm_pairs(length as int) <= d.len())
    &&& (r is Ok ==> (match r->Ok_0 {
        Data::Chromaticity(c) => {
            &&& c.device_channels as int == be16(d, 8)
            &&& c.encoded_value as int == be16(d, 10)
            &&& c.cie_xy_coordinate_values@.len() == chrm_pairs(length as int)
            &&& forall|i: int|
                0 <= i < c.cie_xy_coordinate_values@.len()
                    ==> #[trigger] c.cie_xy_coordinate_values@[i] == (
                    u16f16_at(d, 12 + 8 * i),
                    u16f16_at(d, 16 + 8 * i),
                )
        },
        _ => false,
    }))
    &&& (r is Err ==> r->Err_0 is OutOfBounds)
}

/// A "chrm" tag: channel count, encoding, and (x, y) pairs to the tag's end.
fn decode_chrm(data: &[u8], length: usize) -> (r: Result<Data, IccError>)
    requires
        8 <= length <= data@.len(),
    ensures
        chrm_result(data@, length, r),
{
    let _ = data.len();
    bound_check(data, 8, 4)?;
    let device_channels = read_u16_be(data, 8);
    let encoded_value = read_u16_be(data, 10);
    let count: usize = if length <= 12 {
        0
    } else {
        (length - 12 + 7) / 8
    };
    need(data, 12, count as u64, 8)?;
    let mut vals: Vec<(U16Fixed16Number, U16Fixed16Number)> = Vec::new();
    let mut i: usize = 0;
    while i < count
        invariant
            12 + 8 * count <= data@.len() <= usize::MAX,
            i <= count,
            vals@.len() == i,
            forall|j: int|
                0 <= j < i ==> #[trigger] vals@[j] == (
                    u16f16_at(data@, 12 + 8 * j),
                    u16f16_at(data@, 16 + 8 * j),
                ),
        decreases count - i,
    {
        let x = read_u16_fixed16(data, 12 + 8 * i);
        let y = read_u16_fixed16(data, 16 + 8 * i);
        vals.push((x, y));
        i = i + 1;
    }
    Ok(
        Data::Chromaticity(
            ChromaticityType { device_channels, encoded_value, cie_xy_coordinate_values: vals },
        ),
    )
}

/// Parameter count of a parametric curve's function type.
pub open spec fn para_params(t: int) -> int {
    if t == 0 {
        1
    } else if t == 1 {
        3
    } else if t == 2 {
        4
    } else if t == 3 {
        5
    } else if t == 4 {
        7
    } else {
        0
    }
}

pub open spec fn curve_fits(d: Seq<u8>) -> bool {
    &&& 12 <= d.len()
    &&& type_text(d, 0) == "para"@ ==> 12 + 4 * para_params(be16(d, 8)) <= d.len()
    &&& type_text(d, 0) != "para"@ ==> 12 + 2 * be32(d, 8) <= d.len()
}

pub open spec fn curve_ok(d: Seq<u8>, c: Curve) -> bool {
    if type_text(d, 0) == "para"@ {
        match c {
            Curve::ParametricCurve(p) => {
                &&& p.funtion_type as int == be16(d, 8)
                &&& p.vals@.len() == para_params(be16(d, 8))
                &&& forall|i: int|
                    0 <= i < p.vals@.len() ==> #[trigger] p.vals@[i] == s15_at(d, 12 + 4 * i)
            },
            _ => false,
        }
    } else {
        match c {
            Curve::Curve(v) => v@.len() == be32(d, 8) && forall|i: int|
                0 <= i < v@.len() ==> #[trigger] v@[i] as int == be16(d, 12 + 2 * i),
            _ => false,
        }
    }
}

/// A curve that starts at the beginning of `data`: a "para" parametric curve,
/// or else a sampled one.
pub fn read_parametric_curve(data: &[u8]) -> (r: Result<Curve, IccError>)
    ensures
        r is Ok <==> curve_fits(data@),
        r is Ok ==> curve_ok(data@, r->Ok_0),
        r is Err ==> r->Err_0 is OutOfBounds,
{
    bound_check(data, 0, 12)?;
    let data_type = read_data_type(data, 0)?;
    if !same_text(&data_type, "para") {
        let count = read_u32_be(data, 8) as u64;
        need(data, 12, count, 2)?;
        return Ok(Curve::Curve(read_u16_array(data, 12, count as usize)));
    }
    let funtion_type = read_u16_be(data, 8);
    let num: usize = match funtion_type {
        0 => 1,
        1 => 3,
        2 => 4,
        3 => 5,
        4 => 7,
        _ => 0,
    };
    need(data, 12, num as u64, 4)?;
    let vals = read_s15_array(data, 12, num);
    Ok(Curve::ParametricCurve(ParametricCurve { funtion_type, vals }))
}

/// Parameter count of a formula curve's function type.
pub open spec fn parf_params(t: int) -> int {
    if t == 0 {
        4
    } else if t == 1 || t == 2 {
        5
    } else {
        0
    }
}

/// What decoding a "parf" tag gives.
pub open spec fn parf_result(d: Seq<u8>, r: Result<Data, IccError>) -> bool {
    &&& (r is Ok <==> 12 <= d.len() && 12 + 4 * parf_params(be16(d, 8)) <= d.len())
    &&& (r is Ok ==> (match r->Ok_0 {
        Data::FormulaCurve(f) => {
            &&& f.funtion_type as int == be16(d, 8)
            &&& f.vals@.len() == parf_params(be16(d, 8))
            &&& forall|i: int|
                0 <= i < f.vals@.len() ==> #[trigger] f.vals@[i] as int == be32(
                    d,
                    12 + 4 * i,
                )
        },
        _ => false,
    }))
    &&& (r is Err ==> r->Err_0 is OutOfBounds)
}

/// A "parf" tag: function type at offset 8, single-precision parameters from 12.
fn decode_parf(data: &[u8]) -> (r: Result<Data, IccError>)
    ensures
        parf_result(data@, r),
{
    bound_check(data, 8, 4)?;
    let funtion_type = read_u16_be(data, 8);
    let num: usize = match funtion_type {
        0 => 4,
        1 => 5,
        2 => 5,
        _ => 0,
    };
    need(data, 12, num as u64, 4)?;
    Ok(Data::FormulaCurve(FormulaCurve { funtion_type, vals: read_u32_array(data, 12, num) }))
}

/// What decoding a "samf" tag gives.
pub open spec fn samf_result(d: Seq<u8>, r: Result<Data, IccError>) -> bool {
    &&& (r is Ok <==> 12 <= d.len() && 12 + 4 * be16(d, 8) <= d.len())
    &&& (r is Ok ==> (match r->Ok_0 {
        Data::SampledCurve(v) => v@.len() == be16(d, 8) && forall|i: int|
            0 <= i < v@.len() ==> #[trigger] v@[i] as int == be32(d, 12 + 4 * i),
        _ => false,
    }))
    &&& (r is Err ==> r->Err_0 is OutOfBounds)
}

/// A "samf" tag: a count at offset 8 and single-precision samples from 12.
fn decode_samf(data: &[u8]) -> (r: Result<Data, IccError>)
    ensures
        samf_result(data@, r),
{
    bound_check(data, 8, 4)?;
    let count = read_u16_be(data, 8) as u64;
    need(data, 12, count, 4)?;
    Ok(Data::SampledCurve(read_u32_array(data, 12, count as usize)))
}

/// What decoding a "matf" tag gives.
pub open spec fn matf_result(d: Seq<u8>, r: Result<Data, IccError>) -> bool {
    &&& (r is Ok <==> 12 <= d.len() && 12 + 4 * ((be16(d, 8) + 1) * be16(d, 10))
        <= d.len())
    &&& (r is Ok ==> (match r->Ok_0 {
        Data::MatrixElement(m) => {
            &&& m.input_channels as int == be16(d, 8)
            &&& m.output_channels as int == be16(d, 10)
            &&& m.matrix@.len() == (be16(d, 8) + 1) * be16(d, 10)
            &&& forall|i: int|
                0 <= i < m.matrix@.len() ==> #[trigger] m.matrix@[i] as int == be32(
                    d,
                    12 + 4 * i,
                )
        },
        _ => false,
    }))
    &&& (r is Err ==> r->Err_0 is OutOfBounds)
}

/// A "matf" tag: channel counts and `(inputs + 1) * outputs` matrix entries.
fn decode_matf(data: &[u8]) -> (r: Result<Data, IccError>)
    ensures
        matf_result(data@, r),
{
    bound_check(data, 8, 4)?;
    let input_channels = read_u16_be(data, 8);
    let output_channels = read_u16_be(data, 10);
    assert((input_channels as u64 + 1) * (output_channels as u64) <= 65536 * 65535) by (
    nonlinear_arith);
    let count = (input_channels as u64 + 1) * output_channels as u64;
    need(data, 12, count, 4)?;
    let matrix = read_u32_array(data, 12, count as usize);
    Ok(Data::MatrixElement(MatrixElement { input_channels, output_channels, matrix }))
}

/// What decoding a "clro" tag gives.
pub open spec fn clro_result(d: Seq<u8>, r: Result<Data, IccError>) -> bool {
    &&& (r is Ok <==> 16 <= d.len() && 12 + be32(d, 12) <= d.len() && 12 + be32(
        d,
        8,
    ) <= d.len())
    &&& (r is Ok ==> (r->Ok_0 matches Data::UInt8NumberArray(v) && v@ == d.subrange(
        12,
        12 + be32(d, 8),
    )))
    &&& (r is Err ==> r->Err_0 is OutOfBounds)
}

/// A "clro" tag: colorant order bytes from offset 12.
fn decode_clro(data: &[u8]) -> (r: Result<Data, IccError>)
    ensures
        clro_result(data@, r),
{
    bound_check(data, 8, 8)?;
    let counts = read_u32_be(data, 8) as u64;
    let count = read_u32_be(data, 12) as u64;
    need(data, 12, count, 1)?;
    need(data, 12, counts, 1)?;
    Ok(Data::UInt8NumberArray(read_bytes_as_vec(data, 12, counts as usize)))
}

/// What decoding a "clrt" tag gives.
pub open spec fn clrt_result(d: Seq<u8>, r: Result<Data, IccError>) -> bool {
    &&& (r is Ok <==> 46 <= d.len() && 44 + 6 * be32(d, 8) <= d.len())
    &&& (r is Ok ==> (match r->Ok_0 {
        Data::ColorantTable(c) => {
            &&& c.colorant_name@ == latin1_field(d.subrange(12, 44))
            &&& c.pcs_values@.len() == be32(d, 8)
            &&& forall|i: int|
                0 <= i < c.pcs_values@.len() ==> {
                    &&& #[trigger] c.pcs_values@[i][0] as int == be16(d, 44 + 6 * i)
                    &&& c.pcs_values@[i][1] as int == be16(d, 46 + 6 * i)
                    &&& c.pcs_values@[i][2] as int == be16(d, 48 + 6 * i)
                }
        },
        _ => false,
    }))
    &&& (r is Err ==> r->Err_0 is OutOfBounds)
}

/// A "clrt" tag: a count, a 32-byte name and that many PCS triples.
fn decode_clrt(data: &[u8]) -> (r: Result<Data, IccError>)
    ensures
        clrt_result(data@, r),
{
    let _ = data.len();
    bound_check(data, 8, 38)?;
    let counts = read_u32_be(data, 8) as u64;
    let colorant_name = read_ascii_string(data, 12, 32);
    need(data, 44, counts, 6)?;
    let n = counts as usize;
    let mut pcs_values: Vec<[u16; 3]> = Vec::new();
    let mut i: usize = 0;
    while i < n
        invariant
            44 + 6 * n <= data@.len() <= usize::MAX,
            i <= n,
            pcs_values@.len() == i,
            forall|j: int|
                0 <= j < i ==> {
                    &&& #[trigger] pcs_values@[j][0] as int == be16(data@, 44 + 6 * j)
                    &&& pcs_values@[j][1] as int == be16(data@, 46 + 6 * j)
                    &&& pcs_values@[j][2] as int == be16(data@, 48 + 6 * j)
                },
        decreases n - i,
    {
        let p = 44 + 6 * i;
        let a = read_u16_be(data, p);
        let b = read_u16_be(data, p + 2);
        let c = read_u16_be(data, p + 4);
        let pcs = [a, b, c];
        assert(pcs[0] == a && pcs[1] == b && pcs[2] == c);
        pcs_values.push(pcs);
        i = i + 1;
    }
    Ok(Data::ColorantTable(ColorantTableType { colorant_name, pcs_values }))
}

/// `count` (offset, size) pairs from `ptr`.
fn read_positions(data: &[u8], ptr: usize, count: usize) -> (r: Vec<PositionNumber>)
    requires
        ptr + 8 * count <= data@.len(),
    ensures
        r@.len() == count,
        forall|i: int|
            0 <= i < count ==> #[trigger] r@[i] == (PositionNumber {
                offset: be32(data@, ptr + 8 * i) as u32,
                size: be32(data@, ptr + 8 * i + 4) as u32,
            }),
{
    let _ = data.len();
    let mut v: Vec<PositionNumber> = Vec::new();
    let mut i: usize = 0;
    while i < count
        invariant
            ptr + 8 * count <= data@.len() <= usize::MAX,
            i <= count,
            v@.len() == i,
            forall|j: int|
                0 <= j < i ==> #[trigger] v@[j] == (PositionNumber {
                    offset: be32(data@, ptr + 8 * j) as u32,
                    size: be32(data@, ptr + 8 * j + 4) as u32,
                }),
        decreases count - i,
    {
        let offset = read_u32_be(data, ptr + 8 * i);
        let size = read_u32_be(data, ptr + 8 * i + 4);
        v.push(PositionNumber { offset, size });
        i = i + 1;
    }
    v
}

/// What decoding a "mpet" tag gives.
pub open spec fn mpet_result(d: Seq<u8>, length: usize, r: Result<Data, IccError>) -> bool {
    &&& (r is Ok <==> 16 <= d.len() && 16 + 8 * be32(d, 12) <= length)
    &&& (r is Ok ==> (match r->Ok_0 {
        Data::MultiProcessElements(m) => {
            &&& m.input_channels as int == be16(d, 8)
            &&& m.output_channels as int == be16(d, 10)
            &&& m.process_element_positions@.len() == be32(d, 12)
            &&& m.data@ == d.subrange(16 + 8 * be32(d, 12), length as int)
        },
        _ => false,
    }))
    &&& (r is Err ==> r->Err_0 is OutOfBounds)
}

/// A "mpet" tag: channel counts, element positions, then the element bytes.
fn decode_mpet(data: &[u8], length: usize) -> (r: Result<Data, IccError>)
    requires
        8 <= length <= data@.len(),
    ensures
        mpet_result(data@, length, r),
{
    let _ = data.len();
    bound_check(data, 8, 8)?;
    let input_channels = read_u16_be(data, 8);
    let output_channels = read_u16_be(data, 10);
    let counts = read_u32_be(data, 12) as u64;
    need(data, 16, counts, 8)?;
    let n = counts as usize;
    let process_element_positions = read_positions(data, 16, n);
    let ptr = 16 + 8 * n;
    if ptr > length {
        return Err(IccError::OutOfBounds { offset: ptr, size: 0, length });
    }
    let rest = read_bytes_as_vec(data, ptr, length - ptr);
    Ok(
        Data::MultiProcessElements(
            MultiProcessElementsType {
                input_channels,
                output_channels,
                process_element_positions,
                data: rest,
            },
        ),
    )
}

/// What decoding a "cvst" tag gives.
pub open spec fn cvst_result(d: Seq<u8>, length: usize, r: Result<Data, IccError>) -> bool {
    &&& (r is Ok <==> 12 <= d.len() && 12 + 8 * be16(d, 8) <= length)
    &&& (r is Ok ==> (match r->Ok_0 {
        Data::CurveSet(m) => {
            &&& m.input_channels as int == be16(d, 8)
            &&& m.output_channels as int == be16(d, 10)
            &&& m.curve_positions@.len() == be16(d, 8)
            &&& m.data@ == d.subrange(12 + 8 * be16(d, 8), length as int)
        },
        _ => false,
    }))
    &&& (r is Err ==> r->Err_0 is OutOfBounds)
}

/// A "cvst" tag: channel counts, one curve position per input, then the bytes.
fn decode_cvst(data: &[u8], length: usize) -> (r: Result<Data, IccError>)
    requires
        8 <= length <= data@.len(),
    ensures
        cvst_result(data@, length, r),
{
    let _ = data.len();
    bound_check(data, 8, 4)?;
    let input_channels = read_u16_be(data, 8);
    let output_channels = read_u16_be(data, 10);
    let n = input_channels as usize;
    need(data, 12, n as u64, 8)?;
    let curve_positions = read_positions(data, 12, n);
    let ptr = 12 + 8 * n;
    if ptr > length {
        return Err(IccError::OutOfBounds { offset: ptr, size: 0, length });
    }
    let rest = read_bytes_as_vec(data, ptr, length - ptr);
    Ok(Data::CurveSet(CurveSetType { input_channels, output_channels, curve_positions, data: rest }))
}

/// `k` is where a zero-terminated UTF-16 field of `nbytes` bytes at `off` ends:
/// no zero unit before `k`, and `k` is where the field runs out of whole
/// units or its first zero unit. An odd last byte is not part of any unit.
pub open spec fn units_end(d: Seq<u8>, off: int, nbytes: int, k: int) -> bool {
    &&& 0 <= k
    &&& forall|j: int| 0 <= j < k ==> #[trigger] unit_in_field(d, off, nbytes, j)
    &&& (2 * k + 2 > nbytes || be16(d, off + 2 * k) == 0)
}

/// Unit `j` of a UTF-16 field of `nbytes` bytes at `off` lies wholly inside
/// the field and is not zero.
pub open spec fn unit_in_field(d: Seq<u8>, off: int, nbytes: int, j: int) -> bool {
    2 * j + 2 <= nbytes && be16(d, off + 2 * j) != 0
}

/// The code units of a zero-terminated UTF-16 field of `nbytes` bytes at `off`.
pub open spec fn utf16_field(d: Seq<u8>, off: int, nbytes: int) -> Seq<u16> {
    let k = choose|k: int| units_end(d, off, nbytes, k);
    Seq::new(k as nat, |j: int| be16(d, off + 2 * j) as u16)
}

proof fn lemma_units_end_unique(d: Seq<u8>, off: int, nbytes: int, k1: int, k2: int)
    requires
        units_end(d, off, nbytes, k1),
        units_end(d, off, nbytes, k2),
    ensures
        k1 == k2,
{
    if k1 < k2 {
        assert(unit_in_field(d, off, nbytes, k1));
    } else if k2 < k1 {
        assert(unit_in_field(d, off, nbytes, k2));
    }
}

/// The text of the zero-terminated UTF-16 field of `nbytes` bytes at `off`.
fn read_utf16_field(data: &[u8], off: usize, nbytes: usize) -> (r: Result<String, IccError>)
    ensures
        r is Ok ==> r->Ok_0@ == utf16_lossy_text(utf16_field(data@, off as int, nbytes as int)),
        r is Err ==> r->Err_0 is OutOfBounds,
        r is Ok <==> off + nbytes <= data@.len(),
{
    let _ = data.len();
    bound_check(data, off, nbytes)?;
    let mut units: Vec<u16> = Vec::new();
    let mut len: usize = 0;
    let mut k: usize = 0;
    loop
        invariant
            off + nbytes <= data@.len() <= usize::MAX,
            len == 2 * k,
            len <= nbytes,
            units@ == Seq::new(k as nat, |j: int| be16(data@, off + 2 * j) as u16),
            forall|j: int| 0 <= j < k ==> #[trigger] unit_in_field(data@, off as int, nbytes as int, j),
        ensures
            units_end(data@, off as int, nbytes as int, k as int),
            units@ == Seq::new(k as nat, |j: int| be16(data@, off + 2 * j) as u16),
        decreases nbytes + 2 - len,
    {
        if 2 > nbytes - len {
            break;
        }
        let val = read_u16_be(data, off + len);
        if val == 0 {
            break;
        }
        units.push(val);
        len = len + 2;
        k = k + 1;
        assert(units@ =~= Seq::new(k as nat, |j: int| be16(data@, off + 2 * j) as u16));
    }
    proof {
        let c = choose|c: int| units_end(data@, off as int, nbytes as int, c);
        lemma_units_end_unique(data@, off as int, nbytes as int, k as int, c);
        assert(units@ =~= utf16_field(data@, off as int, nbytes as int));
    }
    Ok(utf16_lossy(&units))
}

/// One record of a localized-text tag: its record header at `ptr`, its text
/// where the header points.
fn read_localization(data: &[u8], ptr: usize) -> (r: Result<LocalizedUnicode, IccError>)
    ensures
        r is Ok <==> mluc_record_fits(data@, ptr as int),
        r is Ok ==> r->Ok_0.lang@ == latin1_field(data@.subrange(ptr + 4, ptr + 6)),
        r is Ok ==> r->Ok_0.country@ == latin1_field(data@.subrange(ptr + 6, ptr + 8)),
        r is Ok ==> r->Ok_0.unicode_string@ == utf16_lossy_text(
            utf16_field(data@, be32(data@, ptr + 12), be32(data@, ptr + 8)),
        ),
        r is Err ==> r->Err_0 is OutOfBounds,
{
    let _ = data.len();
    bound_check(data, ptr, 16)?;
    let lang = read_ascii_string(data, ptr + 4, 2);
    let country = read_ascii_string(data, ptr + 6, 2);
    let name_length = read_u32_be(data, ptr + 8) as usize;
    let name_offset = read_u32_be(data, ptr + 12) as usize;
    let unicode_string = read_utf16_field(data, name_offset, name_length)?;
    Ok(LocalizedUnicode { lang, country, unicode_string })
}

/// What decoding a "mluc" tag gives.
pub open spec fn mluc_result(d: Seq<u8>, r: Result<Data, IccError>) -> bool {
    &&& (r is Ok ==> (match r->Ok_0 {
        Data::MultiLocalizedUnicode(m) => {
            &&& m.unicode_strings@.len() == be32(d, 8)
            &&& forall|i: int|
                0 <= i < m.unicode_strings@.len() ==> {
                    &&& #[trigger] m.unicode_strings@[i].lang@ == latin1_field(
                        d.subrange(16 + 12 * i, 18 + 12 * i),
                    )
                    &&& m.unicode_strings@[i].country@ == latin1_field(
                        d.subrange(18 + 12 * i, 20 + 12 * i),
                    )
                    &&& m.unicode_strings@[i].unicode_string@ == utf16_lossy_text(
                        utf16_field(d, be32(d, 24 + 12 * i), be32(d, 20 + 12 * i)),
                    )
                }
        },
        _ => false,
    }))
    &&& (r is Ok <==> mluc_fits(d))
    &&& (r is Err ==> r->Err_0 is OutOfBounds)
}

/// The localized-text record whose header starts at `p` (its 4-byte size
/// field) fits, with the text it points to.
pub open spec fn mluc_record_fits(d: Seq<u8>, p: int) -> bool {
    &&& p + 16 <= d.len()
    &&& be32(d, p + 12) + be32(d, p + 8) <= d.len()
}

/// Every record of a "mluc" tag fits, with its text.
pub open spec fn mluc_fits(d: Seq<u8>) -> bool {
    &&& 28 <= d.len()
    &&& forall|i: int| 0 <= i < be32(d, 8) ==> #[trigger] mluc_record_fits(d, 12 + 12 * i)
}

/// A "mluc" tag: a record count at offset 8 and 12-byte records from 16.
fn decode_mluc(data: &[u8]) -> (r: Result<Data, IccError>)
    ensures
        mluc_result(data@, r),
{
    let _ = data.len();
    bound_check(data, 8, 20)?;
    let number_of_names = read_u32_be(data, 8) as usize;
    let mut unicode_strings: Vec<LocalizedUnicode> = Vec::new();
    let mut i: usize = 0;
    while i < number_of_names
        invariant
            28 <= data@.len() <= usize::MAX,
            number_of_names == be32(data@, 8),
            i <= number_of_names,
            forall|j: int| 0 <= j < i ==> #[trigger] mluc_record_fits(data@, 12 + 12 * j),
            unicode_strings@.len() == i,
            forall|j: int|
                0 <= j < i ==> {
                    &&& #[trigger] unicode_strings@[j].lang@ == latin1_field(
                        data@.subrange(16 + 12 * j, 18 + 12 * j),
                    )
                    &&& unicode_strings@[j].country@ == latin1_field(
                        data@.subrange(18 + 12 * j, 20 + 12 * j),
                    )
                    &&& unicode_strings@[j].unicode_string@ == utf16_lossy_text(
                        utf16_field(data@, be32(data@, 24 + 12 * j), be32(data@, 20 + 12 * j)),
                    )
                },
        decreases number_of_names - i,
    {
        if i > (data.len() - 12) / 12 {
            assert(!mluc_record_fits(data@, 12 + 12 * i));
            return Err(IccError::OutOfBounds { offset: 12, size: 12, length: data.len() });
        }
        let string = read_localization(data, 12 + 12 * i)?;
        let ghost before = unicode_strings@;
        unicode_strings.push(string);
        proof {
            assert forall|j: int| 0 <= j < i + 1 implies {
                &&& #[trigger] unicode_strings@[j].lang@ == latin1_field(
                    data@.subrange(16 + 12 * j, 18 + 12 * j),
                )
                &&& unicode_strings@[j].country@ == latin1_field(
                    data@.subrange(18 + 12 * j, 20 + 12 * j),
                )
                &&& unicode_strings@[j].unicode_string@ == utf16_lossy_text(
                    utf16_field(data@, be32(data@, 24 + 12 * j), be32(data@, 20 + 12 * j)),
                )
            } by {
                if j < i {
                    assert(unicode_strings@[j] == before[j]);
                } else {
                    assert(unicode_strings@[j] == string);
                    assert(12 + 12 * j + 4 == 16 + 12 * j);
                }
            }
        }
        i = i + 1;
    }
    assert(unicode_strings@.len() == be32(data@, 8));
    Ok(Data::MultiLocalizedUnicode(MultiLocalizedUnicodeType { unicode_strings }))
}

/// What decoding a "desc" tag gives.
pub open spec fn desc_result(d: Seq<u8>, length: usize, version: u32, r: Result<Data, IccError>) -> bool {
    &&& (r is Ok && version < 0x4000_0000 ==> (r->Ok_0 matches Data::ASCII(t) && t@
        == latin1_field(d.subrange(12, length as int))))
    &&& (r is Ok && version >= 0x4000_0000 ==> (match r->Ok_0 {
        Data::Descriptor(desc) => {
            let c = be32(d, 8);
            &&& desc.ascii_string@ == latin1_field(d.subrange(16, 16 + c))
            &&& desc.lang@ == latin1_field(d.subrange(12 + c, 16 + c))
            &&& desc.local_string@ == utf16_lossy_text(
                utf16_field(d, 20 + c, be32(d, 16 + c)),
            )
        },
        _ => false,
    }))
    &&& (version < 0x4000_0000 ==> (r is Ok <==> 12 <= length))
    &&& (version >= 0x4000_0000 ==> (r is Ok <==> desc4_fits(d)))
    &&& (r is Err ==> r->Err_0 is OutOfBounds)
}

/// A version-4 "desc" tag fits: the ASCII length at 8, the ASCII text and
/// language code after it, and the UTF-16 length and text after those.
pub open spec fn desc4_fits(d: Seq<u8>) -> bool {
    let c = be32(d, 8);
    &&& 12 <= d.len()
    &&& 20 + c <= d.len()
    &&& 20 + c + be32(d, 16 + c) <= d.len()
}

/// A "desc" tag. From version 4 on: ASCII text with its length at offset 8,
/// then a language code and UTF-16 text; before that, ASCII text from 12.
fn decode_desc(data: &[u8], length: usize, version: u32) -> (r: Result<Data, IccError>)
    requires
        8 <= length <= data@.len(),
    ensures
        desc_result(data@, length, version, r),
{
    let _ = data.len();
    if version < 0x4000_0000 {
        if length < 12 {
            return Err(IccError::OutOfBounds { offset: 8, size: 4, length });
        }
        return Ok(Data::ASCII(read_ascii_string(data, 12, length - 12)));
    }
    bound_check(data, 8, 4)?;
    let counts = read_u32_be(data, 8) as usize;
    bound_check(data, 16, counts)?;
    let ascii_string = read_ascii_string(data, 16, counts);
    let ptr = 12 + counts;
    bound_check(data, ptr, 8)?;
    let lang = read_ascii_string(data, ptr, 4);
    let counts2 = read_u32_be(data, ptr + 4) as usize;
    let local_string = read_utf16_field(data, ptr + 8, counts2)?;
    Ok(Data::Descriptor(Descriptor { ascii_string, lang, local_string }))
}

/// What decoding a "crdi" tag gives.
pub open spec fn crdi_result(d: Seq<u8>, length: usize, r: Result<Data, IccError>) -> bool {
    &&& (r is Ok ==> match r->Ok_0 {
        Data::CrdInfo(v) => crdi_string_at(d, v@.len()) >= length && crdi_strings_ok(
            d,
            length as int,
            v@,
        ),
        _ => false,
    })
    &&& (r is Ok <==> crdi_fits_from(d, length as int, 8))
    &&& (r is Err ==> r->Err_0 is OutOfBounds)
}

/// The strings of a "crdi" tag from offset `p` on fit: each length field and
/// its bytes lie in the tag, until the offset reaches `length`.
pub open spec fn crdi_fits_from(d: Seq<u8>, length: int, p: int) -> bool
    decreases d.len() - p,
{
    if p >= length {
        true
    } else if p + 4 > d.len() || p + 4 + be32(d, p) > d.len() {
        false
    } else {
        crdi_fits_from(d, length, p + 4 + be32(d, p))
    }
}

/// Each string lies before `length` and holds the characters of its bytes.
pub open spec fn crdi_strings_ok(d: Seq<u8>, length: int, v: Seq<String>) -> bool {
    forall|k: int| 0 <= k < v.len() ==> #[trigger] crdi_string_ok(d, length, k, v[k])
}

/// String `k` lies before `length` and holds the characters of its bytes.
pub open spec fn crdi_string_ok(d: Seq<u8>, length: int, k: int, s: String) -> bool {
    let p = crdi_string_at(d, k as nat);
    &&& p < length
    &&& s@ == latin1_field(d.subrange(p + 4, p + 4 + be32(d, p)))
}

proof fn lemma_crdi_push(d: Seq<u8>, length: int, v: Seq<String>, text: String)
    requires
        crdi_strings_ok(d, length, v),
        crdi_string_at(d, v.len()) < length,
        text@ == latin1_field(
            d.subrange(
                crdi_string_at(d, v.len()) + 4,
                crdi_string_at(d, v.len()) + 4 + be32(d, crdi_string_at(d, v.len())),
            ),
        ),
    ensures
        crdi_strings_ok(d, length, v.push(text)),
{
    let w = v.push(text);
    assert forall|k: int| 0 <= k < w.len() implies #[trigger] crdi_string_ok(d, length, k, w[k]) by {
        if k < v.len() {
            assert(w[k] == v[k]);
            assert(crdi_string_ok(d, length, k, v[k]));
        } else {
            assert(k as nat == v.len());
        }
    }
}

/// Offset of string `k` of a "crdi" tag: each is a 4-byte length and that
/// many bytes, the first at offset 8.
pub open spec fn crdi_string_at(d: Seq<u8>, k: nat) -> int
    decreases k,
{
    if k == 0 {
        8
    } else {
        let p = crdi_string_at(d, (k - 1) as nat);
        p + 4 + be32(d, p)
    }
}

/// A "crdi" tag: length-prefixed strings to the tag's end.
fn decode_crdi(data: &[u8], length: usize) -> (r: Result<Data, IccError>)
    requires
        8 <= length <= data@.len(),
    ensures
        crdi_result(data@, length, r),
{
    let _ = data.len();
    let mut strings: Vec<String> = Vec::new();
    let mut ptr: usize = 8;
    while ptr < length
        invariant
            length <= data@.len() <= usize::MAX,
            ptr <= data@.len(),
            ptr == crdi_string_at(data@, strings@.len()),
            crdi_strings_ok(data@, length as int, strings@),
            crdi_fits_from(data@, length as int, 8) == crdi_fits_from(data@, length as int, ptr as int),
        decreases data@.len() - ptr,
    {
        bound_check(data, ptr, 4)?;
        let strlen = read_u32_be(data, ptr) as usize;
        let p = ptr + 4;
        bound_check(data, p, strlen)?;
        let ghost n = strings@.len();
        let ghost before = strings@;
        let text = read_ascii_string(data, p, strlen);
        assert(text@ == latin1_field(
            data@.subrange(
                crdi_string_at(data@, n) + 4,
                crdi_string_at(data@, n) + 4 + be32(data@, crdi_string_at(data@, n)),
            ),
        ));
        strings.push(text);
        proof {
            lemma_crdi_push(data@, length as int, before, text);
            assert(strings@ == before.push(text));
        }
        ptr = p + strlen;
        assert(ptr == crdi_string_at(data@, (n + 1) as nat));
    }
    Ok(Data::CrdInfo(strings))
}

/// What decoding a "curf" tag gives.
pub open spec fn curf_result(d: Seq<u8>, length: usize, r: Result<Data, IccError>) -> bool {
    &&& (r is Ok ==> (match r->Ok_0 {
        Data::OneDimenstionalCurves(c) => c.segments as int == be16(d, 8)
            && c.dimensional_curves@.len() <= c.segments,
        _ => false,
    }))
    &&& (r is Ok <==> 12 <= d.len() && curf_fits_from(
        d,
        length as int,
        12,
        be16(d, 8) as nat,
        curf_counts(be16(d, 8)),
    ))
    &&& (r is Err ==> r->Err_0 is OutOfBounds)
}

/// Break points per segment of a "curf" tag with `segments` segments.
pub open spec fn curf_counts(segments: int) -> int {
    if segments == 0 {
        0
    } else {
        segments - 1
    }
}

/// The `left` remaining segments of a "curf" tag, from `p`, fit: each one's
/// break points lie in the tag, until one would end past `length`.
pub open spec fn curf_fits_from(d: Seq<u8>, length: int, p: int, left: nat, counts: int) -> bool
    decreases left,
{
    if left == 0 {
        true
    } else {
        let p2 = p + 4 * counts;
        p2 <= d.len() && (p2 + 4 * counts > length || curf_fits_from(
            d,
            length,
            p2,
            (left - 1) as nat,
            counts,
        ))
    }
}

/// A "curf" tag: a segment count and break points per segment.
fn decode_curf(data: &[u8], length: usize) -> (r: Result<Data, IccError>)
    requires
        8 <= length <= data@.len(),
    ensures
        curf_result(data@, length, r),
{
    let _ = data.len();
    bound_check(data, 8, 4)?;
    let segments = read_u16_be(data, 8);
    let counts: usize = if segments == 0 {
        0
    } else {
        segments as usize - 1
    };
    let mut ptr: usize = 12;
    let mut dimensional_curves: Vec<Vec<u32>> = Vec::new();
    let mut s: usize = 0;
    while s < segments as usize
        invariant_except_break
            curf_fits_from(data@, length as int, 12, segments as nat, counts as int)
                == curf_fits_from(data@, length as int, ptr as int, (segments - s) as nat, counts as int),
        invariant
            data@.len() <= usize::MAX,
            ptr <= data@.len(),
            s <= segments,
            dimensional_curves@.len() <= s,
            counts < 65536,
            counts == curf_counts(be16(data@, 8)),
            segments as int == be16(data@, 8),
            12 <= data@.len(),
        ensures
            curf_fits_from(data@, length as int, 12, segments as nat, counts as int),
        decreases segments - s,
    {
        let ghost old_ptr = ptr as int;
        let ghost old_left = (segments - s) as nat;
        need(data, ptr, counts as u64, 4)?;
        let break_points = read_u32_array(data, ptr, counts);
        ptr = ptr + 4 * counts;
        s = s + 1;
        if ptr > length || counts * 4 > length - ptr {
            assert(curf_fits_from(data@, length as int, old_ptr, old_left, counts as int));
            break;
        }
        dimensional_curves.push(break_points);
    }
    Ok(Data::OneDimenstionalCurves(OneDimensionalCurvesType { segments, dimensional_curves }))
}

/// What decoding a "ncl2" tag gives.
pub open spec fn ncl2_result(d: Seq<u8>, r: Result<Data, IccError>) -> bool {
    &&& (r is Ok ==> (match r->Ok_0 {
        Data::NamedColor(n) => {
            &&& n.vendor_specific_flag as int == be32(d, 8)
            &&& n.prefix_color_name@ == latin1_field(d.subrange(20, 52))
            &&& n.suffix_color_name@ == latin1_field(d.subrange(52, 84))
            &&& n.entries@.len() == be32(d, 12)
        },
        _ => false,
    }))
    &&& (r is Ok <==> ncl2_fits(d))
    &&& (r is Err ==> r->Err_0 is OutOfBounds)
}

/// Entry `i` of a "ncl2" tag, each a 32-byte name, three PCS values and the
/// device coordinates, ends inside the tag.
pub open spec fn ncl2_entry_fits(d: Seq<u8>, i: int) -> bool {
    84 + (i + 1) * (38 + 2 * be32(d, 16)) <= d.len()
}

/// The header of a "ncl2" tag and all its entries fit.
pub open spec fn ncl2_fits(d: Seq<u8>) -> bool {
    &&& 84 <= d.len()
    &&& forall|i: int| 0 <= i < be32(d, 12) ==> #[trigger] ncl2_entry_fits(d, i)
}

/// A "ncl2" tag: named colours with PCS and device coordinates.
fn decode_ncl2(data: &[u8]) -> (r: Result<Data, IccError>)
    ensures
        ncl2_result(data@, r),
{
    let _ = data.len();
    bound_check(data, 8, 76)?;
    let vendor_specific_flag = read_u32_be(data, 8);
    let counts = read_u32_be(data, 12) as usize;
    let ndc = read_u32_be(data, 16) as usize;
    let prefix_color_name = read_ascii_string(data, 20, 32);
    let suffix_color_name = read_ascii_string(data, 52, 32);
    let mut ptr: usize = 84;
    let mut entries: Vec<ColorNameWithData> = Vec::new();
    let mut i: usize = 0;
    while i < counts
        invariant
            data@.len() <= usize::MAX,
            ptr <= data@.len(),
            i <= counts,
            entries@.len() == i,
            counts == be32(data@, 12),
            ndc == be32(data@, 16),
            84 <= data@.len(),
            ptr == 84 + i * (38 + 2 * ndc),
            forall|j: int| 0 <= j < i ==> #[trigger] ncl2_entry_fits(data@, j),
        decreases counts - i,
    {
        assert(84 + (i + 1) * (38 + 2 * ndc) == ptr + 38 + 2 * ndc) by (nonlinear_arith)
            requires
                ptr == 84 + i * (38 + 2 * ndc),
        ;
        if ndc > (data.len() - ptr) / 2 || 38 > data.len() - ptr - ndc * 2 {
            assert(!ncl2_entry_fits(data@, i as int));
            return Err(IccError::OutOfBounds { offset: ptr, size: 38, length: data.len() });
        }
        let root_color_name = read_ascii_string(data, ptr, 32);
        let a = read_u16_be(data, ptr + 32);
        let b = read_u16_be(data, ptr + 34);
        let c = read_u16_be(data, ptr + 36);
        let coordinate = read_u16_array(data, ptr + 38, ndc);
        entries.push(ColorNameWithData { root_color_name, pcs: [a, b, c], coordinate });
        ptr = ptr + 38 + 2 * ndc;
        i = i + 1;
    }
    Ok(
        Data::NamedColor(
            NamedColor2Type { vendor_specific_flag, prefix_color_name, suffix_color_name, entries },
        ),
    )
}

/// One response-curve structure of a "rcs2" tag, at `offset`.
fn read_curve_structure(data: &[u8], offset: usize, nch: usize) -> (r: Result<
    CurveStructure,
    IccError,
>)
    requires
        nch < 65536,
    ensures
        r is Ok ==> r->Ok_0.signature as int == be32(data@, offset as int),
        r is Ok ==> r->Ok_0.for_each_channel@.len() == nch,
        r is Ok <==> offset + 8 * (3 * nch + 1) <= data@.len(),
        r is Err ==> r->Err_0 is OutOfBounds,
{
    let _ = data.len();
    need(data, offset, nch as u64 * 3 + 1, 8)?;
    let signature = read_u32_be(data, offset);
    let for_each_channel = read_u32_array(data, offset + 4, nch);
    let patch_with_the_maximum_colorant_value = read_xyz_array(data, offset + 4 + 4 * nch, nch);
    let base = offset + 4 + 16 * nch;
    let mut response_arrays: Vec<Response16Number> = Vec::new();
    let mut i: usize = 0;
    while i < nch
        invariant
            base + 8 * nch <= data@.len() <= usize::MAX,
            i <= nch,
        decreases nch - i,
    {
        let p = base + 8 * i;
        let encoding_the_interval = read_u16_be(data, p);
        let reserved = read_u16_be(data, p + 2);
        let measurement_value = read_s15_fixed16(data, p + 4);
        response_arrays.push(Response16Number { encoding_the_interval, reserved, measurement_value });
        i = i + 1;
    }
    Ok(CurveStructure { signature, for_each_channel, patch_with_the_maximum_colorant_value, response_arrays })
}

/// What decoding a "rcs2" tag gives.
pub open spec fn rcs2_result(d: Seq<u8>, r: Result<Data, IccError>) -> bool {
    &&& (r is Ok ==> (match r->Ok_0 {
        Data::ResponseCurveSet16(c) => {
            &&& c.number_of_channels as int == be16(d, 8)
            &&& c.count_of_measirement_types as int == be16(d, 10)
            &&& c.response_curve_structures@.len() == be16(d, 10)
        },
        _ => false,
    }))
    &&& (r is Ok <==> rcs2_fits(d))
    &&& (r is Err ==> r->Err_0 is OutOfBounds)
}

/// Response-curve structure `i` of a "rcs2" tag, at the offset its table
/// gives, fits: a signature and 24 bytes per channel.
pub open spec fn rcs2_structure_fits(d: Seq<u8>, i: int) -> bool {
    be32(d, 12 + 4 * i) + 8 * (3 * be16(d, 8) + 1) <= d.len()
}

/// The counts and offset table of a "rcs2" tag, and every structure, fit.
pub open spec fn rcs2_fits(d: Seq<u8>) -> bool {
    &&& 12 <= d.len()
    &&& 12 + 4 * be16(d, 10) <= d.len()
    &&& forall|i: int| 0 <= i < be16(d, 10) ==> #[trigger] rcs2_structure_fits(d, i)
}

/// A "rcs2" tag: channel and measurement counts, offsets, and the structures.
fn decode_rcs2(data: &[u8]) -> (r: Result<Data, IccError>)
    ensures
        rcs2_result(data@, r),
{
    bound_check(data, 8, 4)?;
    let number_of_channels = read_u16_be(data, 8);
    let count_of_measirement_types = read_u16_be(data, 10);
    let n = count_of_measirement_types as usize;
    need(data, 12, n as u64, 4)?;
    let offsets = read_u32_array(data, 12, n);
    let mut response_curve_structures: Vec<CurveStructure> = Vec::new();
    let mut i: usize = 0;
    while i < n
        invariant
            offsets@.len() == n,
            n as int == be16(data@, 10),
            number_of_channels as int == be16(data@, 8),
            forall|j: int| 0 <= j < n ==> #[trigger] offsets@[j] as int == be32(data@, 12 + 4 * j),
            forall|j: int| 0 <= j < i ==> #[trigger] rcs2_structure_fits(data@, j),
            i <= n,
            response_curve_structures@.len() == i,
        decreases n - i,
    {
        let read = read_curve_structure(data, offsets[i] as usize, number_of_channels as usize);
        let s = match read {
            Ok(s) => s,
            Err(e) => {
                assert(!rcs2_structure_fits(data@, i as int));
                return Err(e);
            },
        };
        response_curve_structures.push(s);
        i = i + 1;
    }
    Ok(
        Data::ResponseCurveSet16(
            ResponseCurveSet16 {
                number_of_channels,
                count_of_measirement_types,
                response_curve_structures,
            },
        ),
    )
}

/// `n` consecutive curves from `ptr`.
/// The bytes a curve that starts a sequence takes: a "para" curve's header and
/// parameters, or a sampled curve's header and samples.
pub open spec fn curve_bytes(s: Seq<u8>) -> int {
    if type_text(s, 0) == "para"@ {
        12 + 4 * para_params(be16(s, 8))
    } else {
        12 + 2 * be32(s, 8)
    }
}

/// `n` consecutive curves from `p` fit, each where the last one ends.
pub open spec fn curves_fit(d: Seq<u8>, p: int, n: nat) -> bool
    decreases n,
{
    if n == 0 {
        true
    } else {
        &&& 0 <= p <= d.len()
        &&& curve_fits(d.subrange(p, d.len() as int))
        &&& curves_fit(d, p + curve_bytes(d.subrange(p, d.len() as int)), (n - 1) as nat)
    }
}

fn read_curves(data: &[u8], ptr: usize, n: u8) -> (r: Result<Vec<Curve>, IccError>)
    ensures
        r is Ok ==> r->Ok_0@.len() == n,
        r is Ok <==> curves_fit(data@, ptr as int, n as nat),
        r is Err ==> r->Err_0 is OutOfBounds,
{
    let _ = data.len();
    let mut curves: Vec<Curve> = Vec::new();
    let mut p = ptr;
    let mut i: u8 = 0;
    while i < n
        invariant
            i <= n,
            curves@.len() == i,
            data@.len() <= usize::MAX,
            curves_fit(data@, ptr as int, n as nat) == curves_fit(
                data@,
                p as int,
                (n - i) as nat,
            ),
        decreases n - i,
    {
        if p > data.len() {
            return Err(IccError::OutOfBounds { offset: p, size: 12, length: data.len() });
        }
        let sub = slice_subrange(data, p, data.len());
        let curve = read_parametric_curve(sub)?;
        let size = curve.as_size();
        proof {
            if type_text(sub@, 0) == "para"@ {
                assert(size == curve_bytes(sub@));
            } else {
                assert(size == curve_bytes(sub@));
            }
        }
        if size > usize::MAX - p {
            return Err(IccError::OutOfBounds { offset: p, size, length: data.len() });
        }
        p = p + size;
        curves.push(curve);
        i = i + 1;
    }
    Ok(curves)
}

/// Product of the grid-point counts of a lutAtoB / lutBtoA grid at `p`, from
/// the `i`-th on, up to the first zero or the 16th.
pub open spec fn grid_product(d: Seq<u8>, p: int, i: nat) -> int
    decreases 16 - i,
{
    if i >= 16 || d[p + i] == 0 {
        1
    } else {
        d[p + i] as int * grid_product(d, p, i + 1)
    }
}

proof fn lemma_grid_product_positive(d: Seq<u8>, p: int, i: nat)
    ensures
        grid_product(d, p, i) >= 1,
    decreases 16 - i,
{
    if i < 16 && d[p + i] != 0 {
        lemma_grid_product_positive(d, p, i + 1);
        let a = d[p + i] as int;
        let b = grid_product(d, p, i + 1);
        assert(a * b >= 1) by (nonlinear_arith)
            requires
                a >= 1,
                b >= 1,
        ;
    }
}

/// The grid of a lutAtoB / lutBtoA tag at `p`, for `out` output channels,
/// fits: its 20-byte header and its samples, one byte each at precision 1,
/// two otherwise.
pub open spec fn mclut_fits(d: Seq<u8>, p: int, out: int) -> bool {
    let w = if d[p + 16] == 1 {
        1int
    } else {
        2int
    };
    &&& p + 20 <= d.len()
    &&& p + 20 + w * (out * grid_product(d, p, 0)) <= d.len()
}

/// The grid of a lutAtoB / lutBtoA tag at `p`: up to 16 grid-point counts
/// ending at the first zero, the precision byte, and 8- or 16-bit samples.
pub open spec fn mclut_ok(d: Seq<u8>, p: int, c: MClut) -> bool {
    let n = c.grid_points@.len() as int;
    &&& p + 20 <= d.len()
    &&& n <= 16
    &&& forall|i: int| 0 <= i < n ==> #[trigger] c.grid_points@[i] == d[p + i] && d[p + i] != 0
    &&& (n == 16 || d[p + n] == 0)
    &&& c.precision == d[p + 16]
    &&& (c.precision == 1 <==> c.clut_data is UInt8)
}

/// The grid of a lutAtoB / lutBtoA tag, at `ptr`.
fn read_mclut(data: &[u8], ptr: usize, output_channels: u8) -> (r: Result<MClut, IccError>)
    ensures
        r is Ok ==> mclut_ok(data@, ptr as int, r->Ok_0),
        r is Ok <==> mclut_fits(data@, ptr as int, output_channels as int),
        r is Err ==> r->Err_0 is OutOfBounds,
{
    let len = data.len();
    bound_check(data, ptr, 20)?;
    let mut grid_points: Vec<u8> = Vec::new();
    let mut clut_size: u128 = output_channels as u128;
    let mut i: usize = 0;
    let mut stopped = false;
    while i < 16 && !stopped
        invariant
            ptr + 20 <= data@.len(),
            i <= 16,
            clut_size <= len + 255,
            len == data@.len(),
            grid_points@.len() == i,
            forall|j: int| 0 <= j < i ==> #[trigger] grid_points@[j] == data@[ptr + j] && data@[ptr
                + j] != 0,
            stopped ==> i < 16 && data@[ptr + i] == 0,
            clut_size * grid_product(data@, ptr as int, i as nat) == output_channels as int
                * grid_product(data@, ptr as int, 0),
        decreases 16 - i, if stopped { 0int } else { 1int },
    {
        let grid_point = read_byte(data, ptr + i);
        if grid_point == 0 {
            stopped = true;
        } else {
            assert(clut_size * (grid_point as u128) <= (len as int + 255) * 255) by (nonlinear_arith)
                requires
                    clut_size <= len + 255,
                    grid_point <= 255,
            ;
            let ghost old_size = clut_size as int;
            clut_size = clut_size * grid_point as u128;
            proof {
                let rest = grid_product(data@, ptr as int, (i + 1) as nat);
                assert(grid_product(data@, ptr as int, i as nat) == grid_point as int * rest);
                assert(old_size * (grid_point as int * rest) == (old_size * grid_point as int)
                    * rest) by (nonlinear_arith);
                lemma_grid_product_positive(data@, ptr as int, (i + 1) as nat);
            }
            if clut_size > len as u128 {
                proof {
                    let rest = grid_product(data@, ptr as int, (i + 1) as nat);
                    let total = output_channels as int * grid_product(data@, ptr as int, 0);
                    assert(total >= clut_size) by (nonlinear_arith)
                        requires
                            total == clut_size * rest,
                            rest >= 1,
                            clut_size >= 0,
                    ;
                }
                return Err(IccError::OutOfBounds { offset: ptr + 20, size: len, length: len });
            }
            grid_points.push(grid_point);
            i = i + 1;
        }
    }
    let precision = read_byte(data, ptr + 16);
    let start = ptr + 20;
    assert(clut_size == output_channels as int * grid_product(data@, ptr as int, 0));
    if clut_size > len as u128 {
        return Err(IccError::OutOfBounds { offset: start, size: len, length: len });
    }
    let count = clut_size as u64;
    let clut_data = if precision == 1 {
        need(data, start, count, 1)?;
        Clut::UInt8(read_bytes_as_vec(data, start, count as usize))
    } else {
        need(data, start, count, 2)?;
        Clut::UInt16(read_u16_array(data, start, count as usize))
    };
    Ok(MClut { grid_points, precision, clut_data })
}

/// The header of a "mAB " / "mBA " tag and everything its offsets point to
/// fit: three curve sets of one curve per input, the 3x4 matrix, and the grid.
pub open spec fn mab_fits(d: Seq<u8>) -> bool {
    &&& 40 <= d.len()
    &&& curves_fit(d, be32(d, 12), d[8] as nat)
    &&& be32(d, 16) + 48 <= d.len()
    &&& curves_fit(d, be32(d, 20), d[8] as nat)
    &&& mclut_fits(d, be32(d, 24), d[9] as int)
    &&& curves_fit(d, be32(d, 28), d[8] as nat)
}

/// What decoding a "mAB " (`atob`) or "mBA " tag gives.
pub open spec fn mab_result(d: Seq<u8>, atob: bool, r: Result<Data, IccError>) -> bool {
    &&& (r is Ok && atob ==> (match r->Ok_0 {
        Data::LutAtoB(m) => {
            &&& mclut_ok(d, be32(d, 24), m.clut)
            &&& m.input_channels == d[8]
            &&& m.output_channels == d[9]
            &&& m.b_curves@.len() == d[8]
            &&& m.m_curves@.len() == d[8]
            &&& m.a_curves@.len() == d[8]
            &&& m.matrix@.len() == 12
            &&& forall|i: int|
                0 <= i < 12 ==> #[trigger] m.matrix@[i] == s15_at(
                    d,
                    be32(d, 16) + 4 * i,
                )
        },
        _ => false,
    }))
    &&& (r is Ok && !atob ==> (match r->Ok_0 {
        Data::LutBtoA(m) => {
            &&& mclut_ok(d, be32(d, 24), m.clut)
            &&& m.input_channels == d[8]
            &&& m.output_channels == d[9]
            &&& m.b_curves@.len() == d[8]
            &&& m.m_curves@.len() == d[8]
            &&& m.a_curves@.len() == d[8]
            &&& m.matrix@.len() == 12
            &&& forall|i: int|
                0 <= i < 12 ==> #[trigger] m.matrix@[i] == s15_at(
                    d,
                    be32(d, 16) + 4 * i,
                )
        },
        _ => false,
    }))
    &&& (r is Ok <==> mab_fits(d))
    &&& (r is Err ==> r->Err_0 is OutOfBounds)
}

/// A "mAB " or "mBA " tag: curves, matrix and grid at the offsets its header gives.
fn decode_mab(data: &[u8], atob: bool) -> (r: Result<Data, IccError>)
    ensures
        mab_result(data@, atob, r),
{
    bound_check(data, 8, 32)?;
    let input_channels = read_byte(data, 8);
    let output_channels = read_byte(data, 9);
    let offset_b_curve = read_u32_be(data, 12) as usize;
    let offset_matrix = read_u32_be(data, 16) as usize;
    let offset_m_curve = read_u32_be(data, 20) as usize;
    let offset_clut = read_u32_be(data, 24) as usize;
    let offset_a_curve = read_u32_be(data, 28) as usize;
    let b_curves = read_curves(data, offset_b_curve, input_channels)?;
    need(data, offset_matrix, 12, 4)?;
    let matrix = read_s15_array(data, offset_matrix, 12);
    let m_curves = read_curves(data, offset_m_curve, input_channels)?;
    let clut = read_mclut(data, offset_clut, output_channels)?;
    let a_curves = read_curves(data, offset_a_curve, input_channels)?;
    if atob {
        Ok(Data::LutAtoB(Mab { input_channels, output_channels, b_curves, matrix, m_curves, clut, a_curves }))
    } else {
        Ok(Data::LutBtoA(Mba { input_channels, output_channels, b_curves, matrix, m_curves, clut, a_curves }))
    }
}

/// What decoding a "para" tag gives.
pub open spec fn para_result(d: Seq<u8>, r: Result<Data, IccError>) -> bool {
    &&& (r is Ok <==> curve_fits(d))
    &&& (r is Ok ==> match r->Ok_0 {
        Data::ParametricCurve(p) => curve_ok(d, Curve::ParametricCurve(p)),
        Data::NoData => type_text(d, 0) != "para"@,
        _ => false,
    })
    &&& (r is Err ==> r->Err_0 is OutOfBounds)
}

/// Offset of record `k` of a "pseq" tag: each record is 20 bytes of fields
/// followed by two descriptions, each a signature, a length and that many bytes.
pub open spec fn pseq_record_at(d: Seq<u8>, k: nat) -> int
    decreases k,
{
    if k == 0 {
        12
    } else {
        let a = pseq_record_at(d, (k - 1) as nat) + 20;
        let b = a + 8 + be32(d, a + 4);
        b + 8 + be32(d, b + 4)
    }
}

/// The fixed fields of a "pseq" record at `p`.
/// `m` is the description that a decoded payload `x` gives: text becomes a
/// single record in language "C", localized text stays as it is, and anything
/// else becomes a single empty record.
pub open spec fn described_by(x: Data, m: MultiLocalizedUnicodeType) -> bool {
    match x {
        Data::ASCII(t) => {
            &&& m.unicode_strings@.len() == 1
            &&& m.unicode_strings@[0].unicode_string@ == t@
            &&& m.unicode_strings@[0].lang@ == "C"@
            &&& m.unicode_strings@[0].country@.len() == 0
        },
        Data::MultiLocalizedUnicode(u) => m == u,
        _ => {
            &&& m.unicode_strings@.len() == 1
            &&& m.unicode_strings@[0].unicode_string@.len() == 0
            &&& m.unicode_strings@[0].lang@ == "C"@
            &&& m.unicode_strings@[0].country@.len() == 0
        },
    }
}

/// `m` is the description given by the tag that the description record at `a`
/// (signature, length, tag) holds: what `Data::parse` gives for that tag,
/// made into one description type.
pub open spec fn description_decodes(
    d: Seq<u8>,
    a: int,
    version: u32,
    m: MultiLocalizedUnicodeType,
) -> bool {
    let t = d.subrange(a + 8, d.len() as int);
    &&& 0 < a + 8 <= d.len()
    &&& exists|x: Data|
        #[trigger] payload_result(
            kind_of(type_text(t, 0)),
            type_text(t, 0),
            t,
            be32(d, a + 4) as usize,
            version,
            Ok::<Data, IccError>(x),
        ) && described_by(x, m)
}

pub open spec fn pseq_record_ok(d: Seq<u8>, p: int, r: crate::tags::ProfileDescription) -> bool {
    &&& r.device_manufacturer as int == be32(d, p)
    &&& r.device_model as int == be32(d, p + 4)
    &&& r.device_attributes@ == latin1_field(d.subrange(p + 8, p + 16))
    &&& r.technology_information as int == be32(d, p + 16)
}

/// The two descriptions of "pseq" record `k` are what their nested tags decode
/// to, made into one description type.
pub open spec fn pseq_record_described(
    d: Seq<u8>,
    version: u32,
    k: int,
    r: crate::tags::ProfileDescription,
) -> bool {
    let a = pseq_record_at(d, k as nat) + 20;
    let b = a + 8 + be32(d, a + 4);
    &&& description_decodes(d, a, version, r.description_device_manufacturer)
    &&& description_decodes(d, b, version, r.description_device_model)
}

/// Every record of a decoded "pseq" payload has the descriptions its nested
/// tags give.
pub open spec fn pseq_described(d: Seq<u8>, version: u32, x: Data) -> bool {
    match x {
        Data::ProfileDescription(v) => forall|k: int|
            0 <= k < v@.len() ==> pseq_record_described(d, version, k, #[trigger] v@[k]),
        _ => false,
    }
}

/// What decoding a "pseq" tag gives.
pub open spec fn pseq_result(d: Seq<u8>, length: int, version: u32, r: Result<Data, IccError>) -> bool {
    &&& (r is Ok <==> pseq_fits(d, length, version))
    &&& (r is Ok ==> match r->Ok_0 {
        Data::ProfileDescription(v) => v@.len() <= be32(d, 8) && forall|k: int|
            0 <= k < v@.len() ==> pseq_record_ok(d, pseq_record_at(d, k as nat), #[trigger] v@[k]),
        _ => false,
    })
    &&& (r is Err ==> decode_error(r->Err_0))
}

/// Decoding the tag whose bytes are `d` and whose declared length is `length`
/// succeeds: the type signature and 8-byte header fit, and so does the payload.
pub open spec fn parse_fits(d: Seq<u8>, length: int, version: u32) -> bool
    decreases d.len(), 3int, 0int,
{
    &&& 4 <= d.len()
    &&& 8 <= length <= d.len()
    &&& payload_fits(kind_of(type_text(d, 0)), d, length, version)
}

/// The payload of kind `k` in `d`, with declared `length`, decodes.
pub open spec fn payload_fits(k: TagKind, d: Seq<u8>, length: int, version: u32) -> bool
    decreases d.len(), 2int, 0int,
{
    match k {
        TagKind::Mft1 => mft1_fits(d) && mft1_sizes_ok(d),
        TagKind::Mft2 => mft2_fits(d) && mft2_sizes_ok(d),
        TagKind::Para => curve_fits(d),
        TagKind::Parf => 12 <= d.len() && 12 + 4 * parf_params(be16(d, 8)) <= d.len(),
        TagKind::Sig => 12 <= d.len(),
        TagKind::Xyz => array_fits(d, length, 12),
        TagKind::Sf32 => array_fits(d, length, 4),
        TagKind::Uf32 => array_fits(d, length, 4),
        TagKind::Ui16 => array_fits(d, length, 2),
        TagKind::Ui32 => array_fits(d, length, 4),
        TagKind::Ui64 => array_fits(d, length, 8),
        TagKind::Ui08 => true,
        TagKind::Text => true,
        TagKind::Desc => if version < 0x4000_0000 {
            12 <= length
        } else {
            desc4_fits(d)
        },
        TagKind::Chrm => 12 <= d.len() && 12 + 8 * chrm_pairs(length) <= d.len(),
        TagKind::Mluc => mluc_fits(d),
        TagKind::View => 40 <= d.len(),
        TagKind::Meas => 36 <= d.len(),
        TagKind::Curv => 12 <= d.len() && 12 + 2 * be32(d, 8) <= d.len(),
        TagKind::Mba => mab_fits(d),
        TagKind::Mab => mab_fits(d),
        TagKind::Rcs2 => rcs2_fits(d),
        TagKind::Crdi => crdi_fits_from(d, length, 8),
        TagKind::DataTag => 12 <= length,
        TagKind::Clro => 16 <= d.len() && 12 + be32(d, 12) <= d.len() && 12 + be32(d, 8)
            <= d.len(),
        TagKind::Clrt => 46 <= d.len() && 44 + 6 * be32(d, 8) <= d.len(),
        TagKind::Mpet => 16 <= d.len() && 16 + 8 * be32(d, 12) <= length,
        TagKind::Cvst => 12 <= d.len() && 12 + 8 * be16(d, 8) <= length,
        TagKind::Curf => 12 <= d.len() && curf_fits_from(
            d,
            length,
            12,
            be16(d, 8) as nat,
            curf_counts(be16(d, 8)),
        ),
        TagKind::Samf => 12 <= d.len() && 12 + 4 * be16(d, 8) <= d.len(),
        TagKind::Matf => 12 <= d.len() && 12 + 4 * ((be16(d, 8) + 1) * be16(d, 10)) <= d.len(),
        TagKind::Ncl2 => ncl2_fits(d),
        TagKind::Pseq => pseq_fits(d, length, version),
        TagKind::Unknown => true,
    }
}

/// A "pseq" tag decodes: its count, and every record it reads.
pub open spec fn pseq_fits(d: Seq<u8>, length: int, version: u32) -> bool
    decreases d.len(), 1int, 0int,
{
    &&& 12 <= d.len()
    &&& 12 + be32(d, 8) <= d.len()
    &&& 12 <= length
    &&& pseq_records_fit(d, version, 0, 12, length - 12, be32(d, 8))
}

/// The description at `p` inside a "pseq" record: a signature, a length, and
/// a tag of that length that decodes.
pub open spec fn pseq_description_fits(d: Seq<u8>, p: int, version: u32) -> bool
    decreases d.len(), 0int, 0int,
{
    &&& 8 <= p
    &&& p + 8 <= d.len()
    &&& p + 8 + be32(d, p + 4) <= d.len()
    &&& parse_fits(d.subrange(p + 8, d.len() as int), be32(d, p + 4), version)
}

/// Records `i` on of a "pseq" tag, the `i`-th at `p`, with `remain` bytes of
/// the declared length left, decode; reading stops after `counts` records or
/// when nothing remains.
pub open spec fn pseq_records_fit(
    d: Seq<u8>,
    version: u32,
    i: int,
    p: int,
    remain: int,
    counts: int,
) -> bool
    decreases d.len(), 0int, counts - i,
{
    if i >= counts {
        true
    } else if p + 20 > d.len() {
        false
    } else if remain == 0 {
        true
    } else {
        let a = p + 20;
        let b = a + 8 + be32(d, a + 4);
        &&& pseq_description_fits(d, a, version)
        &&& pseq_description_fits(d, b, version)
        &&& pseq_records_fit(
            d,
            version,
            i + 1,
            b + 8 + be32(d, b + 4),
            if remain >= 20 {
                remain - 20
            } else {
                0
            },
            counts,
        )
    }
}

/// What `Data::get` gives for a payload of kind `k` whose type signature is `t`.
pub open spec fn payload_result(
    k: TagKind,
    t: Seq<char>,
    d: Seq<u8>,
    length: usize,
    version: u32,
    r: Result<Data, IccError>,
) -> bool {
    match k {
        TagKind::Mft1 => mft1_result(d, r),
        TagKind::Mft2 => mft2_result(d, r),
        TagKind::Para => para_result(d, r),
        TagKind::Parf => parf_result(d, r),
        TagKind::Sig => sig_result(d, r),
        TagKind::Xyz => array_result(d, length, k, r),
        TagKind::Sf32 => array_result(d, length, k, r),
        TagKind::Uf32 => array_result(d, length, k, r),
        TagKind::Ui16 => array_result(d, length, k, r),
        TagKind::Ui32 => array_result(d, length, k, r),
        TagKind::Ui64 => array_result(d, length, k, r),
        TagKind::Ui08 => r is Ok && (r->Ok_0 matches Data::UInt8NumberArray(v) && v@
            == d.subrange(8, length as int)),
        TagKind::Text => r is Ok && (r->Ok_0 matches Data::ASCII(s) && s@ == latin1_field(
            d.subrange(8, length as int),
        )),
        TagKind::Desc => desc_result(d, length, version, r),
        TagKind::Chrm => chrm_result(d, length, r),
        TagKind::Mluc => mluc_result(d, r),
        TagKind::View => view_result(d, r),
        TagKind::Meas => meas_result(d, r),
        TagKind::Curv => curv_result(d, r),
        TagKind::Mba => mab_result(d, false, r),
        TagKind::Mab => mab_result(d, true, r),
        TagKind::Rcs2 => rcs2_result(d, r),
        TagKind::Crdi => crdi_result(d, length, r),
        TagKind::DataTag => data_result(d, length, r),
        TagKind::Clro => clro_result(d, r),
        TagKind::Clrt => clrt_result(d, r),
        TagKind::Mpet => mpet_result(d, length, r),
        TagKind::Cvst => cvst_result(d, length, r),
        TagKind::Curf => curf_result(d, length, r),
        TagKind::Samf => samf_result(d, r),
        TagKind::Matf => matf_result(d, r),
        TagKind::Ncl2 => ncl2_result(d, r),
        TagKind::Pseq => pseq_result(d, length as int, version, r),
        TagKind::Unknown => r is Ok && (r->Ok_0 matches Data::Raw(s, b) && s@ == t && b@
            == d.subrange(8, length as int)),
    }
}

/// The payload half of what `Data::parse` gives.
pub open spec fn payload_of(r: Result<(String, Data), IccError>) -> Result<Data, IccError> {
    match r {
        Ok(p) => Ok(p.1),
        Err(e) => Err(e),
    }
}

/// A description record inside a "pseq" tag, at `ptr`: its signature, its
/// length, and a text tag that is decoded in turn. Gives the description and
/// the offset after it.
fn read_sub_description(data: &[u8], ptr: usize, version: u32) -> (r: Result<
    (MultiLocalizedUnicodeType, usize),
    IccError,
>)
    requires
        ptr >= 8,
    ensures
        r is Ok ==> ptr < r->Ok_0.1 <= data@.len(),
        r is Ok ==> r->Ok_0.1 == ptr + 8 + be32(data@, ptr + 4),
        r is Ok <==> pseq_description_fits(data@, ptr as int, version),
        r is Ok ==> description_decodes(data@, ptr as int, version, r->Ok_0.0),
        r is Err ==> decode_error(r->Err_0),
    decreases data@.len(), 0int,
{
    let _ = data.len();
    bound_check(data, ptr, 8)?;
    let len = read_u32_be(data, ptr + 4) as usize;
    let p = ptr + 8;
    bound_check(data, p, len)?;
    let sub = slice_subrange(data, p, data.len());
    let parsed = Data::parse(sub, len, version);
    let res = match parsed {
        Err(e) => {
            return Err(e);
        },
        Ok((_, res)) => res,
    };
    let ghost x = res;
    assert(payload_of(parsed) == Ok::<Data, IccError>(x));
    let desc = match res {
        Data::ASCII(text) => MultiLocalizedUnicodeType::from(text),
        Data::MultiLocalizedUnicode(mlut) => mlut,
        _ => MultiLocalizedUnicodeType::from(String::new()),
    };
    proof {
        reveal_strlit("C");
        let t = data@.subrange(ptr + 8, data@.len() as int);
        assert(sub@ == t);
        assert(described_by(x, desc));
        assert(payload_result(
            kind_of(type_text(t, 0)),
            type_text(t, 0),
            t,
            be32(data@, ptr + 4) as usize,
            version,
            Ok::<Data, IccError>(x),
        ));
    }
    Ok((desc, p + len))
}

/// A "pseq" tag: a count and that many profile description records.
fn decode_pseq(data: &[u8], length: usize, version: u32) -> (r: Result<Data, IccError>)
    requires
        8 <= length <= data@.len(),
    ensures
        pseq_result(data@, length as int, version, r),
        r is Ok ==> pseq_described(data@, version, r->Ok_0),
    decreases data@.len(), 1int,
{
    let _ = data.len();
    bound_check(data, 8, 4)?;
    let counts = read_u32_be(data, 8) as usize;
    bound_check(data, 12, counts)?;
    if length < 12 {
        return Err(IccError::OutOfBounds { offset: 12, size: 0, length });
    }
    let mut remain = length - 12;
    let mut ptr: usize = 12;
    let mut profiles: Vec<crate::tags::ProfileDescription> = Vec::new();
    let mut i: usize = 0;
    while i < counts
        invariant
            data@.len() <= usize::MAX,
            8 <= ptr <= data@.len(),
            i <= counts,
            profiles@.len() == i,
            counts == be32(data@, 8),
            ptr == pseq_record_at(data@, i as nat),
            12 <= length,
            remain as int <= length - 12,
            pseq_fits(data@, length as int, version) == pseq_records_fit(
                data@,
                version,
                i as int,
                ptr as int,
                remain as int,
                counts as int,
            ),
            forall|k: int|
                0 <= k < i ==> pseq_record_ok(
                    data@,
                    pseq_record_at(data@, k as nat),
                    #[trigger] profiles@[k],
                ) && pseq_record_described(
                    data@,
                    version,
                    k,
                    profiles@[k],
                ),
        ensures
            pseq_fits(data@, length as int, version),
            profiles@.len() <= counts,
            forall|k: int|
                0 <= k < profiles@.len() ==> pseq_record_ok(
                    data@,
                    pseq_record_at(data@, k as nat),
                    #[trigger] profiles@[k],
                ) && pseq_record_described(
                    data@,
                    version,
                    k,
                    profiles@[k],
                ),
        decreases counts - i,
    {
        bound_check(data, ptr, 20)?;
        if remain == 0 {
            break;
        }
        let device_manufacturer = read_u32_be(data, ptr);
        let device_model = read_u32_be(data, ptr + 4);
        let device_attributes = read_ascii_string(data, ptr + 8, 8);
        let technology_information = read_u32_be(data, ptr + 16);
        ptr = ptr + 20;
        remain = if remain >= 20 {
            remain - 20
        } else {
            0
        };
        let (description_device_manufacturer, next) = read_sub_description(data, ptr, version)?;
        let (description_device_model, end) = read_sub_description(data, next, version)?;
        assert(end == pseq_record_at(data@, (i + 1) as nat));
        ptr = end;
        profiles.push(
            crate::tags::ProfileDescription {
                device_manufacturer,
                device_model,
                device_attributes,
                technology_information,
                description_device_manufacturer,
                description_device_model,
            },
        );
        i = i + 1;
    }
    Ok(Data::ProfileDescription(profiles))
}

impl Data {
    /// Decodes the tag whose bytes begin `data` and whose declared length is
    /// `length`: its type signature, and its payload.
    pub fn parse(data: &[u8], length: usize, version: u32) -> (r: Result<(String, Data), IccError>)
        ensures
            r is Err ==> decode_error(r->Err_0),
            r is Ok <==> parse_fits(data@, length as int, version),
            data@.len() < 4 || length < 8 || length > data@.len() ==> r is Err && r->Err_0 is OutOfBounds,
            r is Ok ==> r->Ok_0.0@ == type_text(data@, 0),
            4 <= data@.len() && 8 <= length <= data@.len() ==> payload_result(
                kind_of(type_text(data@, 0)),
                type_text(data@, 0),
                data@,
                length,
                version,
                payload_of(r),
            ),
        decreases data@.len(), 3int,
    {
        let data_type = read_data_type(data, 0)?;
        let val = Self::get(data_type.as_str(), data, length, version)?;
        Ok((data_type, val))
    }

    /// Decodes the payload of a tag of type `data_type` whose bytes begin
    /// `data` and whose declared length is `length`. Every payload starts with
    /// an 8-byte header; a type this decoder does not know is kept raw.
    pub fn get(data_type: &str, data: &[u8], length: usize, version: u32) -> (r: Result<
        Data,
        IccError,
    >)
        ensures
            r is Err ==> decode_error(r->Err_0),
            length < 8 || length > data@.len() ==> r is Err && r->Err_0 is OutOfBounds,
            8 <= length <= data@.len() ==> (r is Ok <==> payload_fits(
                kind_of(data_type@),
                data@,
                length as int,
                version,
            )),
            8 <= length <= data@.len() && kind_of(data_type@) == TagKind::Pseq && r is Ok
                ==> pseq_described(data@, version, r->Ok_0),
            8 <= length <= data@.len() ==> payload_result(
                kind_of(data_type@),
                data_type@,
                data@,
                length,
                version,
                r,
            ),
        decreases data@.len(), 2int,
    {
        if length < 8 {
            return Err(IccError::OutOfBounds { offset: 8, size: 0, length });
        }
        bound_check(data, 8, length - 8)?;
        let k = tag_kind(data_type);
        match k {
            TagKind::Mft1 => decode_mft1(data),
            TagKind::Mft2 => decode_mft2(data),
            TagKind::Para => {
                let curve = read_parametric_curve(data)?;
                match curve {
                    Curve::ParametricCurve(p) => Ok(Data::ParametricCurve(p)),
                    _ => Ok(Data::NoData),
                }
            },
            TagKind::Parf => decode_parf(data),
            TagKind::Sig => decode_sig(data),
            TagKind::Xyz => decode_array(data, length, k),
            TagKind::Sf32 => decode_array(data, length, k),
            TagKind::Uf32 => decode_array(data, length, k),
            TagKind::Ui16 => decode_array(data, length, k),
            TagKind::Ui32 => decode_array(data, length, k),
            TagKind::Ui64 => decode_array(data, length, k),
            TagKind::Ui08 => Ok(Data::UInt8NumberArray(read_bytes_as_vec(data, 8, length - 8))),
            TagKind::Text => Ok(decode_text(data, length)),
            TagKind::Desc => decode_desc(data, length, version),
            TagKind::Chrm => decode_chrm(data, length),
            TagKind::Mluc => decode_mluc(data),
            TagKind::View => decode_view(data),
            TagKind::Meas => decode_meas(data),
            TagKind::Curv => decode_curv(data),
            TagKind::Mba => decode_mab(data, false),
            TagKind::Mab => decode_mab(data, true),
            TagKind::Rcs2 => decode_rcs2(data),
            TagKind::Crdi => decode_crdi(data, length),
            TagKind::DataTag => decode_data(data, length),
            TagKind::Clro => decode_clro(data),
            TagKind::Clrt => decode_clrt(data),
            TagKind::Mpet => decode_mpet(data, length),
            TagKind::Cvst => decode_cvst(data, length),
            TagKind::Curf => decode_curf(data, length),
            TagKind::Samf => decode_samf(data),
            TagKind::Matf => decode_matf(data),
            TagKind::Ncl2 => decode_ncl2(data),
            TagKind::Pseq => decode_pseq(data, length, version),
            TagKind::Unknown => Ok(
                Data::Raw(data_type.to_owned(), read_bytes_as_vec(data, 8, length - 8)),
            ),
        }
    }

    /// The XYZ triple in the twelve bytes at `ptr`.
    pub fn xyz_number(data: &[u8], ptr: usize) -> (r: Result<XYZNumber, IccError>)
        ensures
            r is Ok <==> ptr + 12 <= data@.len(),
            r is Ok ==> r->Ok_0 == xyz_at(data@, ptr as int),
            r is Err ==> r->Err_0 is OutOfBounds,
    {
        xyz_number(data, ptr)
    }

    /// The type signature at `ptr`.
    pub fn read_data_type(data: &[u8], ptr: usize) -> (r: Result<String, IccError>)
        ensures
            r is Ok <==> ptr + 4 <= data@.len(),
            r is Ok ==> r->Ok_0@ == type_text(data@, ptr as int),
            r is Err ==> r->Err_0 is OutOfBounds,
    {
        read_data_type(data, ptr)
    }
}

/// Big-endian bytes of 16-bit values, two per value.
pub open spec fn be16_bytes(v: Seq<u16>) -> Seq<u8> {
    Seq::new(
        2 * v.len(),
        |p: int|
            if p % 2 == 0 {
                (v[p / 2] / 256) as u8
            } else {
                (v[p / 2] % 256) as u8
            },
    )
}

/// A lut16 tag laid out from its 52-byte header and its three tables.
pub open spec fn mft2_tag_bytes(
    header: Seq<u8>,
    input: Seq<u16>,
    clut: Seq<u16>,
    output: Seq<u16>,
) -> Seq<u8> {
    header + be16_bytes(input) + be16_bytes(clut) + be16_bytes(output)
}

proof fn lemma_be16_bytes(d: Seq<u8>, o: int, v: Seq<u16>)
    requires
        0 <= o,
        o + 2 * v.len() <= d.len(),
        d.subrange(o, o + 2 * v.len()) == be16_bytes(v),
    ensures
        forall|i: int| 0 <= i < v.len() ==> #[trigger] be16(d, o + 2 * i) == v[i] as int,
{
    assert forall|i: int| 0 <= i < v.len() implies #[trigger] be16(d, o + 2 * i) == v[i] as int by {
        let b = be16_bytes(v);
        assert(d[o + 2 * i] == b[2 * i]);
        assert(d[o + 2 * i + 1] == b[2 * i + 1]);
        assert((2 * i) % 2 == 0 && (2 * i) / 2 == i) by (nonlinear_arith);
        assert((2 * i + 1) % 2 == 1 && (2 * i + 1) / 2 == i) by (nonlinear_arith);
        let x = v[i] as int;
        assert((x / 256) * 256 + x % 256 == x) by (nonlinear_arith);
    }
}

/// Encoding a lut16 tag from its header and tables and decoding it gives back
/// the tables exactly: whatever `Data::get` returns for the type "mft2" on
/// those bytes is a lut16 holding the same input table, grid and output table.
pub proof fn lemma_mft2_round_trip(
    header: Seq<u8>,
    input: Seq<u16>,
    clut: Seq<u16>,
    output: Seq<u16>,
    version: u32,
    r: Result<Data, IccError>,
)
    requires
        header.len() == 52,
        input.len() == header[8] as int * be16(header, 48),
        clut.len() == mft_clut_count(header),
        output.len() == header[9] as int * be16(header, 50),
        header[10] >= 1,
        be16(header, 48) >= 1,
        be16(header, 50) >= 1,
        mft2_tag_bytes(header, input, clut, output).len() <= usize::MAX,
        payload_result(
            kind_of("mft2"@),
            "mft2"@,
            mft2_tag_bytes(header, input, clut, output),
            mft2_tag_bytes(header, input, clut, output).len() as usize,
            version,
            r,
        ),
    ensures
        r is Ok,
        match r->Ok_0 {
            Data::Lut16(m) => {
                &&& m.input_table@ == input
                &&& m.clut_values@ == clut
                &&& m.output_table@ == output
                &&& m.input_channels == header[8]
                &&& m.output_channels == header[9]
                &&& m.number_of_clut_grid_points == header[10]
                &&& m.input_table_enteries as int == be16(header, 48)
                &&& m.output_table_enteries as int == be16(header, 50)
            },
            _ => false,
        },
{
    reveal_strlit("mft2");
    reveal_strlit("mft1");
    assert("mft2"@ != "mft1"@) by {
        assert("mft2"@[3] != "mft1"@[3]);
    }
    assert(kind_of("mft2"@) == TagKind::Mft2);
    let d = mft2_tag_bytes(header, input, clut, output);
    let a = be16_bytes(input);
    let b = be16_bytes(clut);
    let c = be16_bytes(output);
    let ni = input.len() as int;
    let nc = clut.len() as int;
    let no = output.len() as int;
    assert(d.len() == 52 + 2 * (ni + nc + no));
    assert(d.subrange(0, 52) =~= header);
    assert(d[8] == header[8] && d[9] == header[9] && d[10] == header[10]);
    assert(d[48] == header[48] && d[49] == header[49] && d[50] == header[50] && d[51]
        == header[51]);
    assert(mft_clut_count(d) == mft_clut_count(header));
    assert(be16(d, 48) == be16(header, 48));
    assert(be16(d, 50) == be16(header, 50));
    assert(d.subrange(52, 52 + 2 * ni) =~= a);
    assert(d.subrange(52 + 2 * ni, 52 + 2 * ni + 2 * nc) =~= b);
    assert(d.subrange(52 + 2 * (ni + nc), 52 + 2 * (ni + nc) + 2 * no) =~= c);
    lemma_be16_bytes(d, 52, input);
    lemma_be16_bytes(d, 52 + 2 * ni, clut);
    lemma_be16_bytes(d, 52 + 2 * (ni + nc), output);
    assert(mft2_fits(d));
    match r->Ok_0 {
        Data::Lut16(m) => {
            assert(mft2_ok(d, m));
            assert forall|i: int| 0 <= i < ni implies m.input_table@[i] == input[i] by {
                assert(m.input_table@[i] as int == be16(d, 52 + 2 * i));
            }
            assert forall|i: int| 0 <= i < nc implies m.clut_values@[i] == clut[i] by {
                assert(m.clut_values@[i] as int == be16(d, 52 + 2 * ni + 2 * i));
            }
            assert forall|i: int| 0 <= i < no implies m.output_table@[i] == output[i] by {
                assert(m.output_table@[i] as int == be16(d, 52 + 2 * (ni + nc) + 2 * i));
            }
            assert(m.input_table@ =~= input);
            assert(m.clut_values@ =~= clut);
            assert(m.output_table@ =~= output);
        },
        _ => {},
    }
}

} // verus!

//! Decoded tag payloads. Floating-point fields of the format are kept as their
//! IEEE-754 single-precision bit patterns.
use vstd::prelude::*;

use crate::numbers::{
    S15Fixed16Number, U16Fixed16Number, U1Fixed15Number, U8Fixed8Number, XYZNumber,
};

verus! {

/// A lut8 ("mft1") transform: 8-bit input table, grid and output table.
#[derive(Debug, Clone)]
pub struct Mft1 {
    pub input_channels: u8,
    pub output_channels: u8,
    pub number_of_clut_grid_points: u8,
    pub e_params: Vec<S15Fixed16Number>,
    pub input_table: Vec<u8>,
    pub clut_values: Vec<u8>,
    pub output_table: Vec<u8>,
}

/// A lut16 ("mft2") transform: 16-bit tables with declared entry counts.
#[derive(Debug, Clone)]
pub struct Mft2 {
    pub input_channels: u8,
    pub output_channels: u8,
    pub number_of_clut_grid_points: u8,
    pub e_params: Vec<S15Fixed16Number>,
    pub input_table_enteries: u16,
    pub output_table_enteries: u16,
    pub input_table: Vec<u16>,
    pub clut_values: Vec<u16>,
    pub output_table: Vec<u16>,
}

/// A curve of a lutAtoB / lutBtoA transform: sampled or parametric.
#[derive(Debug, Clone)]
pub enum Curve {
    ParametricCurve(ParametricCurve),
    Curve(Vec<u16>),
}

impl Curve {
    /// The number of bytes the curve takes in its tag.
    pub fn as_size(&self) -> (r: usize)
        ensures
            r == curve_size(*self),
    {
        match self {
            Curve::Curve(curve) => sat_add(sat_mul(curve.len(), 2), 12),
            Curve::ParametricCurve(curve) => sat_add(curve.as_size(), 8),
        }
    }
}

pub open spec fn sat(x: int) -> int {
    if x > usize::MAX {
        usize::MAX as int
    } else {
        x
    }
}

fn sat_add(a: usize, b: usize) -> (r: usize)
    ensures
        r == sat(a + b),
{
    if a > usize::MAX - b {
        usize::MAX
    } else {
        a + b
    }
}

fn sat_mul(a: usize, b: usize) -> (r: usize)
    requires
        1 <= b <= 4,
    ensures
        r == sat(a * b),
{
    if a > usize::MAX / b {
        assert(a * b > usize::MAX) by (nonlinear_arith)
            requires
                a > usize::MAX / b,
                b >= 1,
        ;
        usize::MAX
    } else {
        assert(a * b <= usize::MAX) by (nonlinear_arith)
            requires
                a <= usize::MAX / b,
                b >= 1,
        ;
        a * b
    }
}

/// The bytes a curve takes in its tag (saturating at `usize::MAX`).
pub open spec fn curve_size(c: Curve) -> int {
    match c {
        Curve::Curve(v) => sat(sat(v@.len() as int * 2) + 12),
        Curve::ParametricCurve(p) => sat(sat(sat(p.vals@.len() as int * 4) + 4) + 8),
    }
}

/// The grid of a lutAtoB / lutBtoA transform, at 8 or 16 bits.
#[derive(Debug, Clone)]
pub enum Clut {
    UInt8(Vec<u8>),
    UInt16(Vec<u16>),
}

#[derive(Debug, Clone)]
pub struct MClut {
    pub grid_points: Vec<u8>,
    pub precision: u8,
    pub clut_data: Clut,
}

impl MClut {
    /// The number of grid values.
    pub fn len(&self) -> (r: usize)
        ensures
            r == match self.clut_data {
                Clut::UInt8(v) => v@.len(),
                Clut::UInt16(v) => v@.len(),
            },
    {
        match &self.clut_data {
            Clut::UInt16(clut) => clut.len(),
            Clut::UInt8(clut) => clut.len(),
        }
    }
}

/// A lutBtoA transform.
#[derive(Debug, Clone)]
pub struct Mba {
    pub input_channels: u8,
    pub output_channels: u8,
    pub b_curves: Vec<Curve>,
    pub matrix: Vec<S15Fixed16Number>,
    pub m_curves: Vec<Curve>,
    pub clut: MClut,
    pub a_curves: Vec<Curve>,
}

/// A lutAtoB transform.
#[derive(Debug, Clone)]
pub struct Mab {
    pub input_channels: u8,
    pub output_channels: u8,
    pub b_curves: Vec<Curve>,
    pub matrix: Vec<S15Fixed16Number>,
    pub m_curves: Vec<Curve>,
    pub clut: MClut,
    pub a_curves: Vec<Curve>,
}

#[derive(Debug, Clone)]
pub struct ResponseCurveSet16 {
    pub number_of_channels: u16,
    pub count_of_measirement_types: u16,
    pub response_curve_structures: Vec<CurveStructure>,
}

#[derive(Debug, Clone, Copy)]
pub struct Response16Number {
    pub encoding_the_interval: u16,
    pub reserved: u16,
    pub measurement_value: S15Fixed16Number,
}

#[derive(Debug, Clone)]
pub struct CurveStructure {
    pub signature: u32,
    pub for_each_channel: Vec<u32>,
    pub patch_with_the_maximum_colorant_value: Vec<XYZNumber>,
    pub response_arrays: Vec<Response16Number>,
}

#[derive(Debug, Clone)]
pub struct ParametricCurve {
    pub funtion_type: u16,
    pub vals: Vec<S15Fixed16Number>,
}

impl ParametricCurve {
    /// The number of bytes of the function type and parameters.
    pub fn as_size(&self) -> (r: usize)
        ensures
            r == sat(sat(self.vals@.len() as int * 4) + 4),
    {
        sat_add(sat_mul(self.vals.len(), 4), 4)
    }
}

/// A segmented formula curve; parameters are single-precision bit patterns.
#[derive(Debug, Clone)]
pub struct FormulaCurve {
    pub funtion_type: u16,
    pub vals: Vec<u32>,
}

impl FormulaCurve {
    /// The number of bytes of the function type and parameters.
    pub fn as_size(&self) -> (r: usize)
        ensures
            r == sat(sat(self.vals@.len() as int * 4) + 2),
    {
        sat_add(sat_mul(self.vals.len(), 4), 2)
    }
}

#[derive(Debug, Clone, Copy)]
pub struct DateTime {
    pub year: u32,
    pub month: u32,
    pub day: u32,
    pub hour: u32,
    pub minutes: u32,
    pub second: u32,
}

#[derive(Debug, Clone)]
pub struct ColorNameWithData {
    pub root_color_name: String,
    pub pcs: [u16; 3],
    pub coordinate: Vec<u16>,
}

#[derive(Debug, Clone)]
pub struct NamedColor2Type {
    pub vendor_specific_flag: u32,
    pub prefix_color_name: String,
    pub suffix_color_name: String,
    pub entries: Vec<ColorNameWithData>,
}

#[derive(Debug, Clone, Copy)]
pub struct ViewingConditions {
    pub illuminant: XYZNumber,
    pub surround: XYZNumber,
    pub illuminant_type: u32,
}

#[derive(Debug, Clone)]
pub struct ChromaticityType {
    pub device_channels: u16,
    pub encoded_value: u16,
    pub cie_xy_coordinate_values: Vec<(U16Fixed16Number, U16Fixed16Number)>,
}

#[derive(Debug, Clone, Copy)]
pub struct MeasurementType {
    pub standard_observer: u32,
    pub measurement_backing: XYZNumber,
    pub measurement_geometry: u32,
    pub measurement_flare: U16Fixed16Number,
    pub standard_illuminant: u32,
}

#[derive(Debug, Clone)]
pub struct ColorantTableType {
    pub colorant_name: String,
    pub pcs_values: Vec<[u16; 3]>,
}

#[derive(Debug, Clone, Copy)]
pub struct PositionNumber {
    pub offset: u32,
    pub size: u32,
}

#[derive(Debug, Clone)]
pub struct MultiProcessElementsType {
    pub input_channels: u16,
    pub output_channels: u16,
    pub process_element_positions: Vec<PositionNumber>,
    pub data: Vec<u8>,
}

#[derive(Debug, Clone)]
pub struct CurveSetType {
    pub input_channels: u16,
    pub output_channels: u16,
    pub curve_positions: Vec<PositionNumber>,
    pub data: Vec<u8>,
}

/// One-dimensional curves; break points are single-precision bit patterns.
#[derive(Debug, Clone)]
pub struct OneDimensionalCurvesType {
    pub segments: u16,
    pub dimensional_curves: Vec<Vec<u32>>,
}

/// A matrix element; entries are single-precision bit patterns.
#[derive(Debug, Clone)]
pub struct MatrixElement {
    pub input_channels: u16,
    pub output_channels: u16,
    pub matrix: Vec<u32>,
}

#[derive(Debug, Clone)]
pub struct Descriptor {
    pub ascii_string: String,
    pub lang: String,
    pub local_string: String,
}

impl Descriptor {
    pub fn to_string(&self) -> (r: String)
        ensures
            r@ == self.ascii_string@,
    {
        self.ascii_string.clone()
    }
}

#[derive(Debug, Clone)]
pub struct LocalizedUnicode {
    pub lang: String,
    pub country: String,
    pub unicode_string: String,
}

impl LocalizedUnicode {
    pub fn as_string(&self) -> (r: String)
        ensures
            r@ == self.unicode_string@,
    {
        self.unicode_string.clone()
    }
}

#[derive(Debug, Clone)]
pub struct MultiLocalizedUnicodeType {
    pub unicode_strings: Vec<LocalizedUnicode>,
}

impl MultiLocalizedUnicodeType {
    /// The first record's text, or an empty string when there is none.
    pub fn as_string(&self) -> (r: String)
        ensures
            self.unicode_strings@.len() > 0 ==> r@ == self.unicode_strings@[0].unicode_string@,
            self.unicode_strings@.len() == 0 ==> r@.len() == 0,
    {
        if self.unicode_strings.len() > 0 {
            self.unicode_strings[0].unicode_string.clone()
        } else {
            String::new()
        }
    }

    /// A single record in language "C" holding `ascii`.
    pub fn from(ascii: String) -> (r: Self)
        ensures
            r.unicode_strings@.len() == 1,
            r.unicode_strings@[0].unicode_string@ == ascii@,
            r.unicode_strings@[0].lang@ == "C"@,
            r.unicode_strings@[0].country@.len() == 0,
    {
        let unicode_string = LocalizedUnicode {
            lang: "C".to_owned(),
            country: String::new(),
            unicode_string: ascii,
        };
        let unicode_strings = vec![unicode_string];
        MultiLocalizedUnicodeType { unicode_strings }
    }
}

#[derive(Debug, Clone)]
pub struct ProfileDescription {
    pub device_manufacturer: u32,
    pub device_model: u32,
    pub device_attributes: String,
    pub technology_information: u32,
    pub description_device_manufacturer: MultiLocalizedUnicodeType,
    pub description_device_model: MultiLocalizedUnicodeType,
}

/// A decoded tag payload. `Raw` keeps the type signature and the bytes of a
/// type this decoder does not know.
#[derive(Debug, Clone)]
pub enum Data {
    Raw(String, Vec<u8>),
    DataTimeNumber(DateTime),
    U16Fixed16Number(U16Fixed16Number),
    U8Fixed8Number(U8Fixed8Number),
    UInt16Number(u16),
    UInt32Number(u32),
    UInt64Number(u64),
    UInt8Number(u8),
    XYZNumber(XYZNumber),
    ASCII(String),
    Binary(Vec<u8>),
    Float32Number(u32),
    PositionNumber(PositionNumber),
    S15Fixed16Number(S15Fixed16Number),
    S15Fixed16NumberArray(Vec<S15Fixed16Number>),
    U16Fixed16NumberArray(Vec<U16Fixed16Number>),
    Response16Number(Response16Number),
    U1Fixed15Number(U1Fixed15Number),
    UInt16NumberArray(Vec<u16>),
    UInt32NumberArray(Vec<u32>),
    UInt64NumberArray(Vec<u64>),
    UInt8NumberArray(Vec<u8>),
    XYZNumberArray(Vec<XYZNumber>),
    Curve(Vec<u16>),
    ParametricCurve(ParametricCurve),
    Lut8(Mft1),
    Lut16(Mft2),
    Chromaticity(ChromaticityType),
    MultiLocalizedUnicode(MultiLocalizedUnicodeType),
    ViewConditions(ViewingConditions),
    Measurement(MeasurementType),
    CurveSet(CurveSetType),
    ProfileDescription(Vec<ProfileDescription>),
    FormulaCurve(FormulaCurve),
    SampledCurve(Vec<u32>),
    NamedColor(NamedColor2Type),
    Descriptor(Descriptor),
    LutAtoB(Mab),
    LutBtoA(Mba),
    ResponseCurveSet16(ResponseCurveSet16),
    CrdInfo(Vec<String>),
    ColorantTable(ColorantTableType),
    MultiProcessElements(MultiProcessElementsType),
    OneDimenstionalCurves(OneDimensionalCurvesType),
    MatrixElement(MatrixElement),
    /// A payload that decoded to nothing usable.
    NoData,
}

/// The name of a standard illuminant code of a viewing-conditions or
/// measurement tag.
pub open spec fn illuminant_name(t: u32) -> Seq<char> {
    if t == 1 {
        "D50"@
    } else if t == 2 {
        "D65"@
    } else if t == 3 {
        "D93"@
    } else if t == 4 {
        "F2"@
    } else if t == 5 {
        "D55"@
    } else if t == 6 {
        "A"@
    } else if t == 7 {
        "Equi-Power (E)"@
    } else if t == 8 {
        "F8\n"@
    } else {
        "unknown"@
    }
}

pub fn illuminant_type_string(measurement_illuminate: u32) -> (r: String)
    ensures
        r@ == illuminant_name(measurement_illuminate),
{
    let name = match measurement_illuminate {
        1 => "D50",
        2 => "D65",
        3 => "D93",
        4 => "F2",
        5 => "D55",
        6 => "A",
        7 => "Equi-Power (E)",
        8 => "F8\n",
        _ => "unknown",
    };
    name.to_owned()
}

} // verus!

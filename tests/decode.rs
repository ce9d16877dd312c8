use icc_profile::tags::illuminant_type_string;
use icc_profile::transform::{cmyk_lut_choice, LutChoice};
use icc_profile::decode::tag_kind;
use icc_profile::error::IccError;
use icc_profile::profile::{icc_profile_decode, DecodedICCProfile, ICCProfile};
use icc_profile::reader::{read_ascii_string, read_u128_be, read_u32_be};
use icc_profile::tags::{Curve, Data};

fn be16(v: u16) -> [u8; 2] {
    v.to_be_bytes()
}

fn be32(v: u32) -> [u8; 4] {
    v.to_be_bytes()
}

/// A lut16 tag with 1 input, 1 output, a 2-point grid and 2-entry curves.
fn mft2_tag() -> Vec<u8> {
    let mut t = Vec::new();
    t.extend_from_slice(b"mft2");
    t.extend_from_slice(&[0, 0, 0, 0]);
    t.extend_from_slice(&[1, 1, 2, 0]);
    for i in 0..9 {
        let v: u32 = if i % 4 == 0 { 0x0001_0000 } else { 0 };
        t.extend_from_slice(&be32(v));
    }
    t.extend_from_slice(&be16(2));
    t.extend_from_slice(&be16(3));
    for v in [0x0102u16, 0xfffe, 0x1234, 0xabcd, 0x0000, 0x8000, 0xffff] {
        t.extend_from_slice(&be16(v));
    }
    t
}

fn header(tags: &[(&[u8; 4], u32, u32)]) -> Vec<u8> {
    let mut b = vec![0u8; 128];
    b[0..4].copy_from_slice(&be32(4096));
    b[4..8].copy_from_slice(b"lcms");
    b[8..12].copy_from_slice(&be32(0x0420_0000));
    b[12..16].copy_from_slice(b"prtr");
    b[16..20].copy_from_slice(b"CMYK");
    b[20..24].copy_from_slice(b"Lab ");
    for (i, v) in [2020u16, 1, 2, 3, 4, 5].iter().enumerate() {
        b[24 + 2 * i..26 + 2 * i].copy_from_slice(&be16(*v));
    }
    b[36..40].copy_from_slice(b"acsp");
    b[68..72].copy_from_slice(&[0, 0, 0xf6, 0xd6]);
    b[72..76].copy_from_slice(&[0, 1, 0, 0]);
    b[76..80].copy_from_slice(&[0xff, 0xff, 0x80, 0x00]);
    for i in 0..16 {
        b[84 + i] = i as u8 + 1;
    }
    b.extend_from_slice(&be32(tags.len() as u32));
    for (name, off, len) in tags {
        b.extend_from_slice(&name[..]);
        b.extend_from_slice(&be32(*off));
        b.extend_from_slice(&be32(*len));
    }
    b
}

fn curv_tag(samples: &[u16]) -> Vec<u8> {
    let mut t = Vec::new();
    t.extend_from_slice(b"curv");
    t.extend_from_slice(&[0, 0, 0, 0]);
    t.extend_from_slice(&be32(samples.len() as u32));
    for s in samples {
        t.extend_from_slice(&be16(*s));
    }
    t
}

#[test]
fn short_profile_is_too_short() {
    for n in [0usize, 1, 64, 127] {
        let buf = vec![0u8; n];
        assert_eq!(
            icc_profile_decode(&buf).unwrap_err(),
            IccError::ProfileTooShort { length: n }
        );
        assert!(matches!(ICCProfile::new(&buf), Err(IccError::ProfileTooShort { .. })));
    }
}

#[test]
fn header_fields_are_read_big_endian() {
    let b = header(&[]);
    let p = ICCProfile::new(&b).unwrap();
    assert_eq!(p.length, 4096);
    assert_eq!(p.version, 0x0420_0000);
    assert_eq!(p.color_space, 0x434d_594b);
    assert_eq!(p.magicnumber_ascp, u32::from_be_bytes(*b"acsp"));
    assert_eq!(p.create_date, "2020/ 1/ 2 03:04:05");
    assert_eq!(p.illuminate.x.integer, 0);
    assert_eq!(p.illuminate.x.decimal, 0xf6d6);
    assert_eq!(p.illuminate.y.integer, 1);
    assert_eq!(p.illuminate.z.integer, -1);
    assert_eq!(p.illuminate.z.decimal, 0x8000);
    assert_eq!(p.profile_id, 0x0102_0304_0506_0708_090a_0b0c_0d0e_0f10);
}

#[test]
fn directory_entry_past_the_end_is_out_of_bounds() {
    let b = header(&[(b"A2B0", 100, 1000)]);
    assert!(matches!(icc_profile_decode(&b), Err(IccError::OutOfBounds { .. })));
    let b = header(&[(b"A2B0", 5000, 8)]);
    assert!(matches!(icc_profile_decode(&b), Err(IccError::OutOfBounds { .. })));
}

#[test]
fn directory_longer_than_buffer_is_out_of_bounds() {
    let mut b = header(&[]);
    b[128..132].copy_from_slice(&be32(3));
    assert!(matches!(icc_profile_decode(&b), Err(IccError::OutOfBounds { .. })));
}

#[test]
fn later_tag_of_same_signature_wins() {
    let first = curv_tag(&[1, 2]);
    let second = curv_tag(&[7]);
    let base = 128 + 4 + 2 * 12;
    let mut b = header(&[
        (b"rTRC", base as u32, first.len() as u32),
        (b"rTRC", (base + first.len()) as u32, second.len() as u32),
    ]);
    b.extend_from_slice(&first);
    b.extend_from_slice(&second);
    let p = DecodedICCProfile::new(&b).unwrap();
    assert_eq!(p.tags.len(), 1);
    match p.tags.get("rTRC") {
        Some(Data::Curve(v)) => assert_eq!(v, &vec![7u16]),
        other => panic!("unexpected {:?}", other),
    }
    assert!(p.tags.get("gTRC").is_none());
}

#[test]
fn whole_profile_with_lut16() {
    let tag = mft2_tag();
    let base = 128 + 4 + 12;
    let mut b = header(&[(b"A2B0", base as u32, tag.len() as u32)]);
    b.extend_from_slice(&tag);
    let p = icc_profile_decode(&b).unwrap();
    assert_eq!(p.color_space, 0x434d_594b);
    match p.tags.get("A2B0") {
        Some(Data::Lut16(m)) => {
            assert_eq!(m.input_table, vec![0x0102, 0xfffe]);
            assert_eq!(m.clut_values, vec![0x1234, 0xabcd]);
            assert_eq!(m.output_table, vec![0x0000, 0x8000, 0xffff]);
        }
        other => panic!("unexpected {:?}", other),
    }
}

#[test]
fn mft2_round_trip() {
    let tag = mft2_tag();
    match Data::get("mft2", &tag, tag.len(), 0x0400_0000).unwrap() {
        Data::Lut16(m) => {
            assert_eq!(m.input_channels, 1);
            assert_eq!(m.output_channels, 1);
            assert_eq!(m.number_of_clut_grid_points, 2);
            assert_eq!(m.input_table_enteries, 2);
            assert_eq!(m.output_table_enteries, 3);
            assert_eq!(m.e_params.len(), 9);
            assert_eq!(m.e_params[0].integer, 1);
            assert_eq!(m.e_params[1].integer, 0);
            assert_eq!(m.input_table, vec![0x0102, 0xfffe]);
            assert_eq!(m.clut_values, vec![0x1234, 0xabcd]);
            assert_eq!(m.output_table, vec![0x0000, 0x8000, 0xffff]);
        }
        other => panic!("unexpected {:?}", other),
    }
}

#[test]
fn truncated_mft2_tables_are_data_shortage() {
    let tag = mft2_tag();
    let cut = &tag[..tag.len() - 1];
    assert_eq!(
        Data::get("mft2", cut, cut.len(), 0).unwrap_err(),
        IccError::DataShortage { entries: 7, width: 2, length: 13 }
    );
}

#[test]
fn truncated_mft2_header_is_out_of_bounds() {
    let tag = mft2_tag();
    let cut = &tag[..40];
    assert!(matches!(
        Data::get("mft2", cut, cut.len(), 0),
        Err(IccError::OutOfBounds { .. })
    ));
}

#[test]
fn mft1_tables_are_bytes() {
    let mut t = Vec::new();
    t.extend_from_slice(b"mft1");
    t.extend_from_slice(&[0, 0, 0, 0]);
    t.extend_from_slice(&[1, 1, 2, 0]);
    t.extend_from_slice(&[0u8; 36]);
    for i in 0..256u32 {
        t.push(i as u8);
    }
    t.extend_from_slice(&[9, 99]);
    for i in 0..256u32 {
        t.push(255 - i as u8);
    }
    let (kind, data) = Data::parse(&t, t.len(), 0x0200_0000).unwrap();
    assert_eq!(kind, "mft1");
    match data {
        Data::Lut8(m) => {
            assert_eq!(m.input_table.len(), 256);
            assert_eq!(m.clut_values, vec![9, 99]);
            assert_eq!(m.output_table[0], 255);
            assert_eq!(m.output_table[255], 0);
        }
        other => panic!("unexpected {:?}", other),
    }
}

#[test]
fn unknown_type_is_kept_raw() {
    let mut t = Vec::new();
    t.extend_from_slice(b"zxml");
    t.extend_from_slice(&[0, 0, 0, 0, 1, 2, 3]);
    let (kind, data) = Data::parse(&t, t.len(), 0).unwrap();
    assert_eq!(kind, "zxml");
    match data {
        Data::Raw(name, bytes) => {
            assert_eq!(name, "zxml");
            assert_eq!(bytes, vec![1, 2, 3]);
        }
        other => panic!("unexpected {:?}", other),
    }
}

#[test]
fn short_type_signature_falls_back_to_three_characters() {
    let mut t = Vec::new();
    t.extend_from_slice(&[0, b'X', b'Y', b'Z']);
    t.extend_from_slice(&[0, 0, 0, 0]);
    t.extend_from_slice(&[0, 1, 0, 0, 0, 0, 0x80, 0, 0, 2, 0, 0]);
    let (kind, data) = Data::parse(&t, t.len(), 0).unwrap();
    assert_eq!(kind, "XYZ");
    match data {
        Data::XYZNumberArray(v) => {
            assert_eq!(v.len(), 1);
            assert_eq!(v[0].x.integer, 1);
            assert_eq!(v[0].y.decimal, 0x8000);
            assert_eq!(v[0].z.integer, 2);
        }
        other => panic!("unexpected {:?}", other),
    }
}

#[test]
fn tag_length_below_header_is_out_of_bounds() {
    let t = curv_tag(&[1]);
    assert!(matches!(Data::get("curv", &t, 4, 0), Err(IccError::OutOfBounds { .. })));
    assert!(matches!(Data::get("curv", &t, t.len() + 1, 0), Err(IccError::OutOfBounds { .. })));
}

#[test]
fn text_tag_stops_at_zero_byte() {
    let mut t = Vec::new();
    t.extend_from_slice(b"text");
    t.extend_from_slice(&[0, 0, 0, 0]);
    t.extend_from_slice(b"Copyright\0junk");
    match Data::get("text", &t, t.len(), 0).unwrap() {
        Data::ASCII(s) => assert_eq!(s, "Copyright"),
        other => panic!("unexpected {:?}", other),
    }
}

#[test]
fn localized_text_is_utf16() {
    let mut t = Vec::new();
    t.extend_from_slice(b"mluc");
    t.extend_from_slice(&[0, 0, 0, 0]);
    t.extend_from_slice(&be32(2));
    t.extend_from_slice(&be32(12));
    t.extend_from_slice(b"enUS");
    t.extend_from_slice(&be32(4));
    t.extend_from_slice(&be32(40));
    t.extend_from_slice(b"jaJP");
    t.extend_from_slice(&be32(2));
    t.extend_from_slice(&be32(44));
    t.extend_from_slice(&[0, b'H', 0, b'i', 0x30, 0x42]);
    match Data::get("mluc", &t, t.len(), 0x0400_0000).unwrap() {
        Data::MultiLocalizedUnicode(m) => {
            assert_eq!(m.unicode_strings.len(), 2);
            assert_eq!(m.unicode_strings[0].lang, "en");
            assert_eq!(m.unicode_strings[0].country, "US");
            assert_eq!(m.unicode_strings[0].unicode_string, "Hi");
            assert_eq!(m.unicode_strings[1].lang, "ja");
            assert_eq!(m.unicode_strings[1].unicode_string, "\u{3042}");
            assert_eq!(m.as_string(), "Hi");
        }
        other => panic!("unexpected {:?}", other),
    }
}

#[test]
fn parametric_curve_parameters() {
    let mut t = Vec::new();
    t.extend_from_slice(b"para");
    t.extend_from_slice(&[0, 0, 0, 0]);
    t.extend_from_slice(&be16(0));
    t.extend_from_slice(&[0, 0]);
    t.extend_from_slice(&[0, 2, 0x66, 0x66]);
    match Data::get("para", &t, t.len(), 0).unwrap() {
        Data::ParametricCurve(p) => {
            assert_eq!(p.funtion_type, 0);
            assert_eq!(p.vals.len(), 1);
            assert_eq!(p.vals[0].integer, 2);
            assert_eq!(p.vals[0].decimal, 0x6666);
            assert_eq!(Curve::ParametricCurve(p).as_size(), 16);
        }
        other => panic!("unexpected {:?}", other),
    }
}

#[test]
fn measurement_tag_fields() {
    let mut t = Vec::new();
    t.extend_from_slice(b"meas");
    t.extend_from_slice(&[0, 0, 0, 0]);
    t.extend_from_slice(&be32(1));
    t.extend_from_slice(&[0u8; 12]);
    t.extend_from_slice(&be32(2));
    t.extend_from_slice(&[0, 0, 0x80, 0]);
    t.extend_from_slice(&be32(3));
    match Data::get("meas", &t, t.len(), 0).unwrap() {
        Data::Measurement(m) => {
            assert_eq!(m.standard_observer, 1);
            assert_eq!(m.measurement_geometry, 2);
            assert_eq!(m.measurement_flare.decimal, 0x8000);
            assert_eq!(m.standard_illuminant, 3);
        }
        other => panic!("unexpected {:?}", other),
    }
}

#[test]
fn tag_kinds_by_signature() {
    assert_eq!(format!("{:?}", tag_kind("mft2")), "Mft2");
    assert_eq!(format!("{:?}", tag_kind("XYZ ")), "Xyz");
    assert_eq!(format!("{:?}", tag_kind("XYZ")), "Xyz");
    assert_eq!(format!("{:?}", tag_kind("vued")), "Mluc");
    assert_eq!(format!("{:?}", tag_kind("abcd")), "Unknown");
}

#[test]
fn primitive_reads() {
    let b = [0x12u8, 0x34, 0x56, 0x78, b'a', b'b', 0, b'c'];
    assert_eq!(read_u32_be(&b, 0), 0x1234_5678);
    assert_eq!(read_ascii_string(&b, 4, 4), "ab");
    let mut c = vec![0u8; 16];
    c[15] = 1;
    c[0] = 0x80;
    assert_eq!(read_u128_be(&c, 0), (0x80u128 << 120) | 1);
}

#[test]
fn illuminant_names() {
    assert_eq!(illuminant_type_string(2), "D65");
    assert_eq!(illuminant_type_string(7), "Equi-Power (E)");
    assert_eq!(illuminant_type_string(99), "unknown");
}

#[test]
fn huge_tag_count_is_out_of_bounds() {
    let mut b = header(&[]);
    b[128..132].copy_from_slice(&be32(u32::MAX));
    assert!(matches!(icc_profile_decode(&b), Err(IccError::OutOfBounds { .. })));
}

#[test]
fn empty_directory_gives_empty_table() {
    let b = header(&[]);
    let p = icc_profile_decode(&b).unwrap();
    assert_eq!(p.tags.len(), 0);
    assert_eq!(p.create_date, "2020/ 1/ 2 03:04:05");
}

#[test]
fn integer_array_tags() {
    let mut t = Vec::new();
    t.extend_from_slice(b"ui16");
    t.extend_from_slice(&[0, 0, 0, 0, 0x12, 0x34, 0xab, 0xcd]);
    match Data::get("ui16", &t, t.len(), 0).unwrap() {
        Data::UInt16NumberArray(v) => assert_eq!(v, vec![0x1234, 0xabcd]),
        other => panic!("unexpected {:?}", other),
    }
    // An odd length reads one more value, which must still lie in the buffer.
    assert!(matches!(Data::get("ui16", &t, t.len() - 1, 0), Ok(Data::UInt16NumberArray(_))));
    let cut = &t[..t.len() - 1];
    assert!(matches!(Data::get("ui16", cut, cut.len(), 0), Err(IccError::OutOfBounds { .. })));
}

#[test]
fn data_tag_text_or_binary() {
    let mut t = Vec::new();
    t.extend_from_slice(b"data");
    t.extend_from_slice(&[0, 0, 0, 0]);
    t.extend_from_slice(&be32(0));
    t.extend_from_slice(b"abc");
    match Data::get("data", &t, t.len(), 0).unwrap() {
        Data::ASCII(s) => assert_eq!(s, "abc"),
        other => panic!("unexpected {:?}", other),
    }
    t[11] = 1;
    match Data::get("data", &t, t.len(), 0).unwrap() {
        Data::Binary(b) => assert_eq!(b, b"abc".to_vec()),
        other => panic!("unexpected {:?}", other),
    }
}

#[test]
fn signature_tag() {
    let mut t = Vec::new();
    t.extend_from_slice(b"sig ");
    t.extend_from_slice(&[0, 0, 0, 0]);
    t.extend_from_slice(b"CRT ");
    match Data::get("sig ", &t, t.len(), 0).unwrap() {
        Data::ASCII(s) => assert_eq!(s, "CRT "),
        other => panic!("unexpected {:?}", other),
    }
}

fn text_tag(s: &[u8]) -> Vec<u8> {
    let mut t = Vec::new();
    t.extend_from_slice(b"text");
    t.extend_from_slice(&[0, 0, 0, 0]);
    t.extend_from_slice(s);
    t
}

#[test]
fn profile_sequence_decodes_nested_text() {
    let maker = text_tag(b"ACME");
    let model = text_tag(b"M1");
    let mut t = Vec::new();
    t.extend_from_slice(b"pseq");
    t.extend_from_slice(&[0, 0, 0, 0]);
    t.extend_from_slice(&be32(1));
    t.extend_from_slice(&be32(0x4150_504c));
    t.extend_from_slice(&be32(7));
    t.extend_from_slice(b"attrs\0\0\0");
    t.extend_from_slice(&be32(9));
    t.extend_from_slice(b"dmnd");
    t.extend_from_slice(&be32(maker.len() as u32));
    t.extend_from_slice(&maker);
    t.extend_from_slice(b"dmdd");
    t.extend_from_slice(&be32(model.len() as u32));
    t.extend_from_slice(&model);
    match Data::get("pseq", &t, t.len(), 0x0200_0000).unwrap() {
        Data::ProfileDescription(v) => {
            assert_eq!(v.len(), 1);
            assert_eq!(v[0].device_manufacturer, 0x4150_504c);
            assert_eq!(v[0].device_model, 7);
            assert_eq!(v[0].device_attributes, "attrs");
            assert_eq!(v[0].technology_information, 9);
            assert_eq!(v[0].description_device_manufacturer.as_string(), "ACME");
            assert_eq!(v[0].description_device_model.as_string(), "M1");
        }
        other => panic!("unexpected {:?}", other),
    }
}

#[test]
fn cmyk_profile_picks_its_lut16() {
    use_choice_for(b"CMYK", true);
    use_choice_for(b"RGB ", false);
}

fn use_choice_for(space: &[u8; 4], expect_table: bool) {
    // A 4-input, 3-output lut16 with a 2-point grid and 2-entry curves.
    let mut tag = Vec::new();
    tag.extend_from_slice(b"mft2");
    tag.extend_from_slice(&[0, 0, 0, 0]);
    tag.extend_from_slice(&[4, 3, 2, 0]);
    tag.extend_from_slice(&[0u8; 36]);
    tag.extend_from_slice(&be16(2));
    tag.extend_from_slice(&be16(2));
    for _ in 0..(4 * 2 + 16 * 3 + 3 * 2) {
        tag.extend_from_slice(&be16(0));
    }
    let base = 128 + 4 + 12;
    let mut b = header(&[(b"A2B0", base as u32, tag.len() as u32)]);
    b[16..20].copy_from_slice(space);
    b.extend_from_slice(&tag);
    let p = icc_profile_decode(&b).unwrap();
    let choice = cmyk_lut_choice(&p);
    assert_eq!(matches!(choice, LutChoice::Lut16(_)), expect_table);
    assert_eq!(matches!(choice, LutChoice::Additive), !expect_table);
}

#[test]
fn crdi_strings_are_length_prefixed() {
    let mut t = Vec::new();
    t.extend_from_slice(b"crdi");
    t.extend_from_slice(&[0, 0, 0, 0]);
    t.extend_from_slice(&be32(3));
    t.extend_from_slice(b"abc");
    t.extend_from_slice(&be32(2));
    t.extend_from_slice(b"de");
    match Data::get("crdi", &t, t.len(), 0).unwrap() {
        Data::CrdInfo(v) => assert_eq!(v, vec!["abc".to_string(), "de".to_string()]),
        other => panic!("unexpected {:?}", other),
    }
    let cut = &t[..t.len() - 1];
    assert!(matches!(Data::get("crdi", cut, cut.len(), 0), Err(IccError::OutOfBounds { .. })));
}

fn small_mft2(grid: u8, input_entries: u16, output_entries: u16) -> Vec<u8> {
    let mut t = Vec::new();
    t.extend_from_slice(b"mft2");
    t.extend_from_slice(&[0, 0, 0, 0]);
    t.extend_from_slice(&[1, 1, grid, 0]);
    t.extend_from_slice(&[0u8; 36]);
    t.extend_from_slice(&be16(input_entries));
    t.extend_from_slice(&be16(output_entries));
    let n = input_entries as usize + grid as usize + output_entries as usize;
    for i in 0..n {
        t.extend_from_slice(&be16(i as u16 + 1));
    }
    t
}

#[test]
fn zero_size_luts_fail_at_decode() {
    let t = small_mft2(0, 2, 2);
    assert_eq!(Data::get("mft2", &t, t.len(), 0).unwrap_err(), IccError::DivideByZero);
    let t = small_mft2(2, 0, 2);
    assert_eq!(Data::get("mft2", &t, t.len(), 0).unwrap_err(), IccError::DivideByZero);
    let t = small_mft2(2, 2, 0);
    assert_eq!(Data::get("mft2", &t, t.len(), 0).unwrap_err(), IccError::DivideByZero);
    let mut t = Vec::new();
    t.extend_from_slice(b"mft1");
    t.extend_from_slice(&[0, 0, 0, 0]);
    t.extend_from_slice(&[1, 1, 0, 0]);
    t.extend_from_slice(&[0u8; 36]);
    t.extend_from_slice(&[0u8; 512]);
    assert_eq!(Data::get("mft1", &t, t.len(), 0).unwrap_err(), IccError::DivideByZero);
}

#[test]
fn smallest_lut16_decodes() {
    // One-entry curves and a one-point grid: three table values, 58 bytes.
    let t = small_mft2(1, 1, 1);
    assert_eq!(t.len(), 58);
    match Data::get("mft2", &t, t.len(), 0).unwrap() {
        Data::Lut16(m) => {
            assert_eq!(m.input_table, vec![1]);
            assert_eq!(m.clut_values, vec![2]);
            assert_eq!(m.output_table, vec![3]);
        }
        other => panic!("unexpected {:?}", other),
    }
}

#[test]
fn wrong_magic_number_still_decodes() {
    let tag = curv_tag(&[5]);
    let base = 128 + 4 + 12;
    let mut b = header(&[(b"rTRC", base as u32, tag.len() as u32)]);
    b[36..40].copy_from_slice(b"xxxx");
    b.extend_from_slice(&tag);
    let p = icc_profile_decode(&b).unwrap();
    assert_eq!(p.magicnumber_ascp, u32::from_be_bytes(*b"xxxx"));
    assert!(matches!(p.tags.get("rTRC"), Some(Data::Curve(_))));
}

#[test]
fn one_failing_tag_fails_the_profile() {
    let good = curv_tag(&[5]);
    let bad = curv_tag(&[1, 2]);
    let base = 128 + 4 + 2 * 12;
    // The second tag declares 3 samples but holds 2.
    let mut bad = bad;
    bad[8..12].copy_from_slice(&be32(3));
    let mut b = header(&[
        (b"rTRC", base as u32, good.len() as u32),
        (b"gTRC", (base + good.len()) as u32, bad.len() as u32),
    ]);
    b.extend_from_slice(&good);
    b.extend_from_slice(&bad);
    assert!(matches!(icc_profile_decode(&b), Err(IccError::OutOfBounds { .. })));
}

#[test]
fn utf16_field_ignores_odd_last_byte() {
    let mut t = Vec::new();
    t.extend_from_slice(b"mluc");
    t.extend_from_slice(&[0, 0, 0, 0]);
    t.extend_from_slice(&be32(1));
    t.extend_from_slice(&be32(12));
    t.extend_from_slice(b"enUS");
    t.extend_from_slice(&be32(5));
    t.extend_from_slice(&be32(28));
    t.extend_from_slice(&[0, b'H', 0, b'i', 0x41]);
    match Data::get("mluc", &t, t.len(), 0x0400_0000).unwrap() {
        Data::MultiLocalizedUnicode(m) => assert_eq!(m.unicode_strings[0].unicode_string, "Hi"),
        other => panic!("unexpected {:?}", other),
    }
}

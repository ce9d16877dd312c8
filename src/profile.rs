//! The profile container: the 128-byte header, the tag directory, and the
//! table of decoded tags.
use vstd::prelude::*;
use vstd::slice::slice_subrange;

use crate::decode::{kind_of, need, parse_fits, payload_result, type_text};
use crate::error::{decode_error, IccError};
use crate::numbers::{xyz_at, xyz_number, XYZNumber};
use crate::reader::{
    be16, be32, be64, be128, bound_check, read_string, read_u128_be, read_u16_be, read_u32_be,
    read_u64_be, utf8_field_text,
};
use crate::tags::Data;

verus! {

/// The creation date as `format!` writes it: "yyyy/mm/dd hh:mm:ss", the year,
/// month and day right-aligned in widths 4, 2 and 2, the time zero-padded.
pub uninterp spec fn date_text(
    year: u16,
    month: u16,
    day: u16,
    hour: u16,
    minute: u16,
    second: u16,
) -> Seq<char>;

/// Relies on std's `format!`: it writes the six numbers with the widths and
/// padding that `date_text` names.
#[verifier::external_body]
fn format_date(year: u16, month: u16, day: u16, hour: u16, minute: u16, second: u16) -> (r: String)
    ensures
        r@ == date_text(year, month, day, hour, minute, second),
{
    format!("{:>4}/{:>2}/{:>2} {:>02}:{:>02}:{:>02}", year, month, day, hour, minute, second)
}

/// The decoded 128-byte header of a profile, with the profile's bytes.
#[derive(Debug, Clone)]
pub struct ICCProfile {
    pub length: u32,
    pub cmmid: u32,
    pub version: u32,
    pub device_class: u32,
    pub color_space: u32,
    pub pcs: u32,
    pub create_date: String,
    pub magicnumber_ascp: u32,
    pub platform: u32,
    pub flags: u32,
    pub manufacturer: u32,
    pub model: u32,
    pub attributes: u64,
    pub rendering_intent: u32,
    pub illuminate: XYZNumber,
    pub creator: u32,
    pub profile_id: u128,
    pub reserved: Vec<u8>,
    pub data: Vec<u8>,
}

/// The creation date recorded in a header.
pub open spec fn header_date(b: Seq<u8>) -> Seq<char> {
    date_text(
        be16(b, 24) as u16,
        be16(b, 26) as u16,
        be16(b, 28) as u16,
        be16(b, 30) as u16,
        be16(b, 32) as u16,
        be16(b, 34) as u16,
    )
}

/// The header fields of `p` are those stored at their offsets in `b`.
pub open spec fn header_ok(b: Seq<u8>, p: ICCProfile) -> bool {
    &&& p.length as int == be32(b, 0)
    &&& p.cmmid as int == be32(b, 4)
    &&& p.version as int == be32(b, 8)
    &&& p.device_class as int == be32(b, 12)
    &&& p.color_space as int == be32(b, 16)
    &&& p.pcs as int == be32(b, 20)
    &&& p.create_date@ == header_date(b)
    &&& p.magicnumber_ascp as int == be32(b, 36)
    &&& p.platform as int == be32(b, 40)
    &&& p.flags as int == be32(b, 44)
    &&& p.manufacturer as int == be32(b, 48)
    &&& p.model as int == be32(b, 52)
    &&& p.attributes as int == be64(b, 56)
    &&& p.rendering_intent as int == be32(b, 64)
    &&& p.illuminate == xyz_at(b, 68)
    &&& p.creator as int == be32(b, 80)
    &&& p.profile_id as int == be128(b, 84)
    &&& p.data@ == b
}

impl ICCProfile {
    /// Reads the header of the profile in `buffer`; fails with
    /// `ProfileTooShort` when it is under 128 bytes.
    pub fn new(buffer: &Vec<u8>) -> (r: Result<Self, IccError>)
        ensures
            r is Err <==> buffer@.len() < 128,
            r is Err ==> r->Err_0 == (IccError::ProfileTooShort {
                length: buffer@.len() as usize,
            }),
            r is Ok ==> header_ok(buffer@, r->Ok_0),
    {
        if buffer.len() < 128 {
            return Err(IccError::ProfileTooShort { length: buffer.len() });
        }
        let b = buffer.as_slice();
        let length = read_u32_be(b, 0);
        let cmmid = read_u32_be(b, 4);
        let version = read_u32_be(b, 8);
        let device_class = read_u32_be(b, 12);
        let color_space = read_u32_be(b, 16);
        let pcs = read_u32_be(b, 20);
        let year = read_u16_be(b, 24);
        let month = read_u16_be(b, 26);
        let day = read_u16_be(b, 28);
        let hour = read_u16_be(b, 30);
        let minute = read_u16_be(b, 32);
        let second = read_u16_be(b, 34);
        let magicnumber_ascp = read_u32_be(b, 36);
        let platform = read_u32_be(b, 40);
        let flags = read_u32_be(b, 44);
        let manufacturer = read_u32_be(b, 48);
        let model = read_u32_be(b, 52);
        let attributes = read_u64_be(b, 56);
        let rendering_intent = read_u32_be(b, 64);
        let illuminate = match xyz_number(b, 68) {
            Ok(x) => x,
            Err(e) => {
                return Err(e);
            },
        };
        let creator = read_u32_be(b, 80);
        let profile_id = read_u128_be(b, 84);
        let create_date = format_date(year, month, day, hour, minute, second);
        Ok(
            ICCProfile {
                length,
                cmmid,
                version,
                device_class,
                color_space,
                pcs,
                create_date,
                magicnumber_ascp,
                platform,
                flags,
                manufacturer,
                model,
                attributes,
                rendering_intent,
                illuminate,
                creator,
                profile_id,
                reserved: Vec::new(),
                data: buffer.clone(),
            },
        )
    }
}

/// One decoded tag: its signature and payload.
#[derive(Debug, Clone)]
pub struct TagEntry {
    pub name: String,
    pub data: Data,
}

/// Decoded tags by signature. A signature appears at most once.
#[derive(Debug, Clone)]
pub struct TagTable {
    pub entries: Vec<TagEntry>,
}

impl TagTable {
    pub open spec fn wf(&self) -> bool {
        forall|i: int, j: int|
            0 <= i < j < self.entries@.len() ==> #[trigger] self.entries@[i].name@
                != #[trigger] self.entries@[j].name@
    }

    /// The table holds signature `k`.
    pub open spec fn has(&self, k: Seq<char>) -> bool {
        exists|i: int| 0 <= i < self.entries@.len() && #[trigger] self.entries@[i].name@ == k
    }

    /// The table holds payload `d` under signature `k`.
    pub open spec fn maps(&self, k: Seq<char>, d: Data) -> bool {
        exists|i: int|
            0 <= i < self.entries@.len() && #[trigger] self.entries@[i].name@ == k
                && self.entries@[i].data == d
    }

    pub fn new() -> (r: Self)
        ensures
            r.wf(),
            r.entries@.len() == 0,
    {
        TagTable { entries: Vec::new() }
    }

    pub fn len(&self) -> (r: usize)
        ensures
            r == self.entries@.len(),
    {
        self.entries.len()
    }

    /// Stores `data` under `name`, replacing what an earlier tag of the same
    /// signature stored.
    pub fn insert(&mut self, name: String, data: Data)
        requires
            old(self).wf(),
        ensures
            final(self).wf(),
            final(self).maps(name@, data),
            forall|k: Seq<char>, d: Data|
                k != name@ && old(self).maps(k, d) ==> #[trigger] final(self).maps(k, d),
            forall|k: Seq<char>| #[trigger] final(self).has(k) ==> k == name@ || old(self).has(k),
            final(self).entries@.len() <= old(self).entries@.len() + 1,
            forall|q: int|
                #![trigger final(self).entries@[q]]
                0 <= q < final(self).entries@.len() ==> (final(self).entries@[q].name@ == name@
                    && final(self).entries@[q].data == data) || (final(self).entries@[q].name@
                    != name@ && old(self).maps(final(self).entries@[q].name@, final(self).entries@[q].data)),
    {
        let mut i: usize = 0;
        while i < self.entries.len()
            invariant
                self.wf(),
                *self == *old(self),
                i <= self.entries@.len(),
                forall|j: int| 0 <= j < i ==> #[trigger] self.entries@[j].name@ != name@,
            decreases self.entries@.len() - i,
        {
            if self.entries[i].name == name {
                let ghost before = self.entries@;
                self.entries[i] = TagEntry { name, data };
                proof {
                    assert(self.entries@[i as int].name@ == before[i as int].name@);
                    assert forall|k: Seq<char>, d: Data|
                        k != self.entries@[i as int].name@ && old(self).maps(k, d) implies #[trigger] self.maps(k, d) by {
                        let j = choose|j: int|
                            0 <= j < before.len() && #[trigger] before[j].name@ == k
                                && before[j].data == d;
                        assert(self.entries@[j].name@ == k);
                    }
                    assert forall|q: int| 0 <= q < self.entries@.len() implies (
                    #[trigger] self.entries@[q]).name@ == name@ && self.entries@[q].data == data
                        || (self.entries@[q].name@ != name@ && old(self).maps(
                        self.entries@[q].name@,
                        self.entries@[q].data,
                    )) by {
                        if q != i {
                            assert(before[q] == self.entries@[q]);
                            assert(before[q].name@ != before[i as int].name@);
                        }
                    }
                    assert forall|k: Seq<char>| #[trigger] self.has(k) implies k
                        == self.entries@[i as int].name@ || old(self).has(k) by {
                        let j = choose|j: int|
                            0 <= j < self.entries@.len() && #[trigger] self.entries@[j].name@ == k;
                        if j != i {
                            assert(before[j].name@ == k);
                        }
                    }
                }
                return;
            }
            i = i + 1;
        }
        let ghost before = self.entries@;
        let ghost k0 = name@;
        self.entries.push(TagEntry { name, data });
        proof {
            let n = before.len() as int;
            assert(self.entries@[n].name@ == k0);
            assert forall|k: Seq<char>, d: Data| k != k0 && old(self).maps(k, d) implies #[trigger] self.maps(
                k,
                d,
            ) by {
                let j = choose|j: int|
                    0 <= j < before.len() && #[trigger] before[j].name@ == k && before[j].data == d;
                assert(self.entries@[j] == before[j]);
            }
            assert forall|q: int| 0 <= q < self.entries@.len() implies ((
            #[trigger] self.entries@[q]).name@ == k0 && self.entries@[q].data == data) || (
            self.entries@[q].name@ != k0 && old(self).maps(
                self.entries@[q].name@,
                self.entries@[q].data,
            )) by {
                if q < n {
                    assert(self.entries@[q] == before[q]);
                }
            }
            assert forall|k: Seq<char>| #[trigger] self.has(k) implies k == k0 || old(self).has(k) by {
                let j = choose|j: int| 0 <= j < self.entries@.len() && #[trigger] self.entries@[j].name@ == k;
                if j < n {
                    assert(before[j].name@ == k);
                }
            }
        }
    }

    /// The payload stored under `name`.
    pub fn get(&self, name: &str) -> (r: Option<&Data>)
        ensures
            r is Some <==> self.has(name@),
            r is Some ==> self.maps(name@, *r->0),
    {
        let key = name.to_owned();
        let mut i: usize = 0;
        while i < self.entries.len()
            invariant
                i <= self.entries@.len(),
                key@ == name@,
                forall|j: int| 0 <= j < i ==> #[trigger] self.entries@[j].name@ != name@,
            decreases self.entries@.len() - i,
        {
            if self.entries[i].name == key {
                return Some(&self.entries[i].data);
            }
            i = i + 1;
        }
        None
    }
}

/// A decoded profile: the header fields and the table of decoded tags.
#[derive(Debug, Clone)]
pub struct DecodedICCProfile {
    pub length: u32,
    pub cmmid: u32,
    pub version: u32,
    pub device_class: u32,
    pub color_space: u32,
    pub pcs: u32,
    pub create_date: String,
    pub magicnumber_ascp: u32,
    pub platform: u32,
    pub flags: u32,
    pub manufacturer: u32,
    pub model: u32,
    pub attributes: u64,
    pub rendering_intent: u32,
    pub illuminate: XYZNumber,
    pub creator: u32,
    pub profile_id: u128,
    pub tags: TagTable,
}

/// The header fields of a decoded profile are those stored in `b`.
pub open spec fn decoded_header_ok(b: Seq<u8>, p: DecodedICCProfile) -> bool {
    &&& p.length as int == be32(b, 0)
    &&& p.cmmid as int == be32(b, 4)
    &&& p.version as int == be32(b, 8)
    &&& p.device_class as int == be32(b, 12)
    &&& p.color_space as int == be32(b, 16)
    &&& p.pcs as int == be32(b, 20)
    &&& p.create_date@ == header_date(b)
    &&& p.magicnumber_ascp as int == be32(b, 36)
    &&& p.platform as int == be32(b, 40)
    &&& p.flags as int == be32(b, 44)
    &&& p.manufacturer as int == be32(b, 48)
    &&& p.model as int == be32(b, 52)
    &&& p.attributes as int == be64(b, 56)
    &&& p.rendering_intent as int == be32(b, 64)
    &&& p.illuminate == xyz_at(b, 68)
    &&& p.creator as int == be32(b, 80)
    &&& p.profile_id as int == be128(b, 84)
}

/// The number of entries of the tag directory.
pub open spec fn tag_count(b: Seq<u8>) -> int {
    be32(b, 128)
}

/// Offset of directory entry `i`.
pub open spec fn entry_at(i: int) -> int {
    132 + 12 * i
}

/// Signature of directory entry `i`.
pub open spec fn entry_name(b: Seq<u8>, i: int) -> Seq<char> {
    utf8_field_text(b.subrange(entry_at(i), entry_at(i) + 4))
}

/// Directory entry `i` names a tag that lies inside the profile: its bytes
/// from its offset to its declared end, at least its 8-byte header.
pub open spec fn entry_fits(b: Seq<u8>, i: int) -> bool {
    let off = be32(b, entry_at(i) + 4);
    let len = be32(b, entry_at(i) + 8);
    &&& off + 4 <= b.len()
    &&& 8 <= len
    &&& off + len <= b.len()
}

/// The bytes from directory entry `i`'s offset to the end of the profile.
pub open spec fn entry_bytes(b: Seq<u8>, i: int) -> Seq<u8> {
    b.subrange(be32(b, entry_at(i) + 4), b.len() as int)
}

/// `d` is what `Data::parse` gives for the tag of directory entry `i`.
pub open spec fn entry_decodes(b: Seq<u8>, i: int, d: Data) -> bool {
    let t = entry_bytes(b, i);
    payload_result(
        kind_of(type_text(t, 0)),
        type_text(t, 0),
        t,
        be32(b, entry_at(i) + 8) as usize,
        be32(b, 8) as u32,
        Ok(d),
    )
}

/// The tag of directory entry `i` decodes: its offset lies in the profile and
/// `Data::parse` succeeds on the bytes from there with the declared length.
pub open spec fn entry_decodable(b: Seq<u8>, i: int) -> bool {
    &&& be32(b, entry_at(i) + 4) <= b.len()
    &&& parse_fits(entry_bytes(b, i), be32(b, entry_at(i) + 8), be32(b, 8) as u32)
}

/// The whole profile decodes: the tag count and directory lie in the buffer and
/// every directory entry's tag decodes. The magic number plays no part.
pub open spec fn profile_fits(b: Seq<u8>) -> bool {
    &&& 132 <= b.len()
    &&& entry_at(tag_count(b)) <= b.len()
    &&& forall|i: int| 0 <= i < tag_count(b) ==> #[trigger] entry_decodable(b, i)
}

/// Directory entry `i` is the first whose tag does not decode, and its
/// declared bytes run past the end of the buffer.
pub open spec fn first_entry_overruns(b: Seq<u8>, i: int) -> bool {
    &&& 132 <= b.len()
    &&& entry_at(tag_count(b)) <= b.len()
    &&& 0 <= i < tag_count(b)
    &&& forall|j: int| 0 <= j < i ==> #[trigger] entry_decodable(b, j)
    &&& be32(b, entry_at(i) + 4) + be32(b, entry_at(i) + 8) > b.len()
}

/// No directory entry after `i` and before `n` has the signature of `i`.
pub open spec fn last_of_name(b: Seq<u8>, i: int, n: int) -> bool {
    forall|j: int| i < j < n ==> #[trigger] entry_name(b, j) != entry_name(b, i)
}

/// Each table entry holds the payload of the last directory entry, among the
/// first `n`, with its signature.
pub open spec fn table_from_directory(b: Seq<u8>, t: TagTable, n: int) -> bool {
    forall|q: int|
        0 <= q < t.entries@.len() ==> exists|i: int|
            0 <= i < n && #[trigger] entry_name(b, i) == (#[trigger] t.entries@[q]).name@
                && last_of_name(b, i, n) && entry_decodes(b, i, t.entries@[q].data)
}

/// When entries before `i` decode and entry `i` does not, the profile does not
/// decode, and the only entry that can be the first to overrun is `i`.
proof fn lemma_first_failure(b: Seq<u8>, i: int)
    requires
        0 <= i < tag_count(b),
        !entry_decodable(b, i),
        forall|j: int| 0 <= j < i ==> #[trigger] entry_decodable(b, j),
    ensures
        !profile_fits(b),
        forall|k: int| #[trigger] first_entry_overruns(b, k) ==> k == i,
{
    assert forall|k: int| #[trigger] first_entry_overruns(b, k) implies k == i by {
        if k < i {
            assert(entry_decodable(b, k));
        } else if k > i {
            assert(entry_decodable(b, i));
        }
    }
}

/// Decodes a whole profile: header, tag directory, and every tag, a later tag
/// of the same signature replacing an earlier one.
pub fn icc_profile_decode(data: &Vec<u8>) -> (r: Result<DecodedICCProfile, IccError>)
    ensures
        data@.len() < 128 ==> r == Err::<DecodedICCProfile, IccError>(
            IccError::ProfileTooShort { length: data@.len() as usize },
        ),
        data@.len() >= 128 && r is Err ==> decode_error(r->Err_0),
        r is Ok ==> decoded_header_ok(data@, r->Ok_0),
        r is Ok ==> entry_at(tag_count(data@)) <= data@.len(),
        r is Ok ==> forall|i: int| 0 <= i < tag_count(data@) ==> #[trigger] entry_fits(data@, i),
        r is Ok ==> r->Ok_0.tags.wf(),
        r is Ok ==> r->Ok_0.tags.entries@.len() <= tag_count(data@),
        r is Ok ==> forall|i: int|
            0 <= i < tag_count(data@) ==> r->Ok_0.tags.has(#[trigger] entry_name(data@, i)),
        r is Ok ==> forall|k: Seq<char>| #[trigger]
            r->Ok_0.tags.has(k) ==> exists|i: int|
                0 <= i < tag_count(data@) && k == #[trigger] entry_name(data@, i),
        r is Ok ==> table_from_directory(data@, r->Ok_0.tags, tag_count(data@)),
        data@.len() >= 128 ==> (r is Ok <==> profile_fits(data@)),
        forall|i: int| #[trigger]
            first_entry_overruns(data@, i) ==> r is Err && r->Err_0 is OutOfBounds,
{
    let icc_profile = ICCProfile::new(data)?;
    let b = data.as_slice();
    let len = b.len();
    bound_check(b, 128, 4)?;
    let tags = read_u32_be(b, 128);
    need(b, 132, tags as u64, 12)?;
    let mut table = TagTable::new();
    let mut i: u32 = 0;
    while i < tags
        invariant
            b@ == data@,
            len == b@.len(),
            tags as int == tag_count(b@),
            entry_at(tags as int) <= len,
            i <= tags,
            table.wf(),
            table.entries@.len() <= i,
            forall|j: int| 0 <= j < i ==> #[trigger] entry_fits(b@, j),
            forall|j: int| 0 <= j < i ==> table.has(#[trigger] entry_name(b@, j)),
            forall|k: Seq<char>| #[trigger]
                table.has(k) ==> exists|j: int| 0 <= j < i && k == #[trigger] entry_name(b@, j),
            icc_profile.version as int == be32(b@, 8),
            table_from_directory(b@, table, i as int),
            132 <= len,
            forall|j: int| 0 <= j < i ==> #[trigger] entry_decodable(b@, j),
        decreases tags - i,
    {
        let ptr = 132 + 12 * (i as usize);
        let tag_name = read_string(b, ptr, 4);
        let tag_offset = read_u32_be(b, ptr + 4) as usize;
        let tag_length = read_u32_be(b, ptr + 8) as usize;
        if tag_offset > len {
            proof {
                lemma_first_failure(b@, i as int);
            }
            return Err(IccError::OutOfBounds { offset: tag_offset, size: tag_length, length: len });
        }
        let sub = slice_subrange(b, tag_offset, len);
        assert(sub@ == entry_bytes(b@, i as int));
        let parsed = Data::parse(sub, tag_length, icc_profile.version);
        let val = match parsed {
            Ok((_, v)) => v,
            Err(e) => {
                proof {
                    assert(!entry_decodable(b@, i as int));
                    lemma_first_failure(b@, i as int);
                }
                return Err(e);
            },
        };
        assert(entry_decodable(b@, i as int));
        assert(entry_fits(b@, i as int));
        let ghost old_table = table;
        let ghost nm = tag_name@;
        assert(nm == entry_name(b@, i as int));
        assert(sub@ == entry_bytes(b@, i as int));
        assert(entry_decodes(b@, i as int, val));
        table.insert(tag_name, val);
        proof {
            assert forall|j: int| 0 <= j < i + 1 implies table.has(#[trigger] entry_name(b@, j)) by {
                if j < i {
                    let k = entry_name(b@, j);
                    if k != nm {
                        assert(old_table.has(k));
                        let q = choose|q: int|
                            0 <= q < old_table.entries@.len() && #[trigger] old_table.entries@[q].name@ == k;
                        assert(old_table.maps(k, old_table.entries@[q].data));
                        assert(table.maps(k, old_table.entries@[q].data));
                    }
                }
            }
            assert forall|q: int| 0 <= q < table.entries@.len() implies exists|j: int|
                0 <= j < i + 1 && #[trigger] entry_name(b@, j) == (
                #[trigger] table.entries@[q]).name@ && last_of_name(b@, j, i + 1)
                    && entry_decodes(b@, j, table.entries@[q].data) by {
                let e = table.entries@[q];
                if e.name@ == nm && e.data == val {
                    assert(entry_name(b@, i as int) == e.name@ && last_of_name(b@, i as int, i + 1)
                        && entry_decodes(b@, i as int, e.data));
                } else {
                    assert(e.name@ != nm && old_table.maps(e.name@, e.data));
                    let p = choose|p: int|
                        0 <= p < old_table.entries@.len() && #[trigger] old_table.entries@[p].name@
                            == e.name@ && old_table.entries@[p].data == e.data;
                    let oe = old_table.entries@[p];
                    let j = choose|j: int|
                        0 <= j < i && #[trigger] entry_name(b@, j) == oe.name@ && last_of_name(
                            b@,
                            j,
                            i as int,
                        ) && entry_decodes(b@, j, oe.data);
                    assert(last_of_name(b@, j, i + 1));
                }
            }
            assert forall|k: Seq<char>| #[trigger] table.has(k) implies exists|j: int|
                0 <= j < i + 1 && k == #[trigger] entry_name(b@, j) by {
                if k == nm {
                    assert(k == entry_name(b@, i as int));
                } else {
                    assert(old_table.has(k));
                }
            }
        }
        i = i + 1;
    }
    proof {
        assert forall|k: int| #[trigger] first_entry_overruns(b@, k) implies false by {
            assert(entry_decodable(b@, k));
            assert(entry_bytes(b@, k).len() == b@.len() - be32(b@, entry_at(k) + 4));
        }
    }
    Ok(
        DecodedICCProfile {
            length: icc_profile.length,
            cmmid: icc_profile.cmmid,
            version: icc_profile.version,
            device_class: icc_profile.device_class,
            color_space: icc_profile.color_space,
            pcs: icc_profile.pcs,
            create_date: icc_profile.create_date,
            magicnumber_ascp: icc_profile.magicnumber_ascp,
            platform: icc_profile.platform,
            flags: icc_profile.flags,
            manufacturer: icc_profile.manufacturer,
            model: icc_profile.model,
            attributes: icc_profile.attributes,
            rendering_intent: icc_profile.rendering_intent,
            illuminate: icc_profile.illuminate,
            creator: icc_profile.creator,
            profile_id: icc_profile.profile_id,
            tags: table,
        },
    )
}

impl DecodedICCProfile {
    /// Decodes the profile in `buffer`.
    pub fn new(buffer: &Vec<u8>) -> (r: Result<Self, IccError>)
        ensures
            buffer@.len() < 128 ==> r == Err::<DecodedICCProfile, IccError>(
                IccError::ProfileTooShort { length: buffer@.len() as usize },
            ),
            buffer@.len() >= 128 && r is Err ==> decode_error(r->Err_0),
            r is Ok ==> decoded_header_ok(buffer@, r->Ok_0),
            r is Ok ==> forall|i: int|
                0 <= i < tag_count(buffer@) ==> #[trigger] entry_fits(buffer@, i),
            r is Ok ==> r->Ok_0.tags.wf(),
            r is Ok ==> forall|i: int|
                0 <= i < tag_count(buffer@) ==> r->Ok_0.tags.has(#[trigger] entry_name(buffer@, i)),
            r is Ok ==> table_from_directory(buffer@, r->Ok_0.tags, tag_count(buffer@)),
            buffer@.len() >= 128 ==> (r is Ok <==> profile_fits(buffer@)),
            forall|i: int| #[trigger]
                first_entry_overruns(buffer@, i) ==> r is Err && r->Err_0 is OutOfBounds,
    {
        icc_profile_decode(buffer)
    }
}

} // verus!

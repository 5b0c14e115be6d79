//! GAP Appearance values carried in Bluetooth LE advertising data.

use vstd::prelude::*;

verus! {

/// GAP Appearance advertising data type.
pub const APPEARANCE_DATA_TYPE: u8 = 0x19;

/// The little-endian 16-bit value of a two-byte payload.
pub open spec fn spec_u16_le(lo: u8, hi: u8) -> u16 {
    (lo as int + 256 * (hi as int)) as u16
}

/// What parsing a GAP Appearance payload yields: a value exactly when the
/// payload is two bytes long.
pub open spec fn spec_parse_appearance(data: Seq<u8>) -> Option<u16> {
    if data.len() == 2 {
        Some(spec_u16_le(data[0], data[1]))
    } else {
        None
    }
}

/// The appearance found by walking the length-prefixed sections of an
/// advertising record from `offset` on: the first section of the appearance
/// type whose payload is well formed. A zero length ends the record, and a
/// section that runs past the end of the data ends the search.
pub open spec fn spec_appearance_from(data: Seq<u8>, offset: int) -> Option<u16>
    decreases data.len() - offset,
{
    if offset < 0 || offset >= data.len() {
        None
    } else {
        let length = data[offset];
        let start = offset + 1;
        let end = start + length;
        if length == 0 {
            None
        } else if end > usize::MAX || end > data.len() {
            None
        } else if data[start] == APPEARANCE_DATA_TYPE && spec_parse_appearance(
            data.subrange(start + 1, end),
        ) is Some {
            spec_parse_appearance(data.subrange(start + 1, end))
        } else {
            spec_appearance_from(data, end)
        }
    }
}

/// Parse the payload of a GAP Appearance advertising data section.
pub fn parse_appearance(data: &[u8]) -> (res: Option<u16>)
    ensures
        res == spec_parse_appearance(data@),
{
    if data.len() == 2 {
        let v: u16 = data[0] as u16 + 256u16 * (data[1] as u16);
        Some(v)
    } else {
        None
    }
}

/// Parse GAP Appearance from a length-prefixed Bluetooth LE advertising record.
pub fn parse_appearance_from_advertisement(data: &[u8]) -> (res: Option<u16>)
    ensures
        res == spec_appearance_from(data@, 0),
{
    let mut offset: usize = 0;
    while offset < data.len()
        invariant
            offset <= data@.len(),
            spec_appearance_from(data@, 0) == spec_appearance_from(data@, offset as int),
        decreases data@.len() - offset,
    {
        let length: u8 = data[offset];
        let start: usize = offset + 1;
        if length == 0 {
            return None;
        }
        let end: usize = match start.checked_add(length as usize) {
            Some(e) => e,
            None => {
                return None;
            },
        };
        if end > data.len() {
            return None;
        }
        let data_type: u8 = data[start];
        if data_type == APPEARANCE_DATA_TYPE {
            if end - start == 3 {
                let v: u16 = data[start + 1] as u16 + 256u16 * (data[start + 2] as u16);
                proof {
                    assert(data@.subrange(start + 1, end as int) =~= seq![
                        data@[start + 1],
                        data@[start + 2],
                    ]);
                }
                return Some(v);
            }
        }
        offset = end;
    }
    None
}

/// A well-formed GAP Appearance section (length 3, type 0x19) gives its
/// little-endian two-byte payload as the appearance.
pub proof fn law_appearance_section_gives_its_value(data: Seq<u8>, o: int)
    requires
        0 <= o,
        o + 3 < data.len(),
        data.len() <= usize::MAX,
        data[o] == 3,
        data[o + 1] == 0x19,
    ensures
        spec_appearance_from(data, o) == Some((data[o + 2] + 256 * data[o + 3]) as u16),
{
    assert(data.subrange(o + 2, o + 4) =~= seq![data[o + 2], data[o + 3]]);
}

/// A complete section that is not a two-byte GAP Appearance section (its
/// type is not 0x19, or its payload is not two bytes) supplies nothing: the
/// search goes on after it.
pub proof fn law_other_sections_are_skipped(data: Seq<u8>, o: int)
    requires
        0 <= o < data.len(),
        data[o] > 0,
        o + 1 + data[o] <= data.len(),
        data.len() <= usize::MAX,
        !(data[o] == 3 && data[o + 1] == 0x19),
    ensures
        spec_appearance_from(data, o) == spec_appearance_from(data, o + 1 + data[o]),
{
}

/// An appearance found from `o` on is the two-byte payload of a section of
/// type 0x19 at or after `o`.
pub proof fn law_appearance_comes_from_an_appearance_section(data: Seq<u8>, o: int)
    ensures
        spec_appearance_from(data, o) matches Some(v) ==> exists|s: int|
            o <= s && s + 3 < data.len() && #[trigger] data[s] == 3 && data[s + 1] == 0x19 && v == (data[s + 2] + 256
                * data[s + 3]) as u16,
    decreases data.len() - o,
{
    if 0 <= o < data.len() && data[o] != 0 && o + 1 + data[o] <= data.len() {
        let end = o + 1 + data[o];
        if data[o + 1] == APPEARANCE_DATA_TYPE && spec_parse_appearance(data.subrange(o + 2, end)) is Some {
            assert(data[o] == 3);
            assert(data.subrange(o + 2, end)[0] == data[o + 2]);
            assert(data.subrange(o + 2, end)[1] == data[o + 3]);
        } else {
            law_appearance_comes_from_an_appearance_section(data, end);
        }
    }
}

} // verus!

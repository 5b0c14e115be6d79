//! The HCI wire format: reading packets that come from the controller
//! (events, commands and ACL data) and writing command packets.

use vstd::prelude::*;
use crate::api::AddressType;
use crate::bdaddr::BDAddr;
use crate::hci_codes::{spec_command_type, spec_hci_status, CommandType, HCIStatus};

verus! {

/// HCI packet type: command.
pub const HCI_COMMAND_PKT: u8 = 0x01;

/// HCI packet type: ACL data.
pub const HCI_ACLDATA_PKT: u8 = 0x02;

/// HCI packet type: event.
pub const HCI_EVENT_PKT: u8 = 0x04;

/// ACL packet boundary flag: first packet, not automatically flushable.
pub const ACL_START_NO_FLUSH: u16 = 0x00;

/// ACL packet boundary flag: continuing fragment.
pub const ACL_CONT: u16 = 0x01;

/// ACL packet boundary flag: first packet, automatically flushable.
pub const ACL_START: u16 = 0x02;

/// Why a packet could not be read.
#[derive(Debug, Clone, Copy, PartialEq, Eq, Structural)]
pub enum ParseError {
    /// The input ended early; the element being read needed this many bytes.
    Incomplete(usize),
    /// The input holds a value that no packet has there.
    Error,
}

/// The little-endian 16-bit value at `p`.
pub open spec fn le16(b: Seq<u8>, p: int) -> u16 {
    (b[p] + 256 * b[p + 1]) as u16
}

/// The little-endian 32-bit value at `p`.
pub open spec fn le32(b: Seq<u8>, p: int) -> u32 {
    (le16(b, p) + 0x1_0000 * le16(b, p + 2)) as u32
}

/// The little-endian 64-bit value at `p`.
pub open spec fn le64(b: Seq<u8>, p: int) -> u64 {
    (le32(b, p) + 0x1_0000_0000 * le32(b, p + 4)) as u64
}

/// The little-endian 16-bit value at `p`.
pub(crate) fn u16_at(b: &[u8], p: usize) -> (v: u16)
    requires
        p + 2 <= b.len(),
    ensures
        v == le16(b@, p as int),
{
    b[p] as u16 + 256u16 * (b[p + 1] as u16)
}

/// The little-endian 32-bit value at `p`.
pub(crate) fn u32_at(b: &[u8], p: usize) -> (v: u32)
    requires
        p + 4 <= b.len(),
    ensures
        v == le32(b@, p as int),
{
    let lo: u16 = u16_at(b, p);
    let hi: u16 = u16_at(b, p + 2);
    lo as u32 + 0x1_0000u32 * (hi as u32)
}

/// The little-endian 64-bit value at `p`.
pub(crate) fn u64_at(b: &[u8], p: usize) -> (v: u64)
    requires
        p + 8 <= b.len(),
    ensures
        v == le64(b@, p as int),
{
    let lo: u32 = u32_at(b, p);
    let hi: u32 = u32_at(b, p + 4);
    lo as u64 + 0x1_0000_0000u64 * (hi as u64)
}

/// The six bytes at `p`.
pub(crate) fn array6_at(b: &[u8], p: usize) -> (a: [u8; 6])
    requires
        p + 6 <= b.len(),
    ensures
        a@ == b@.subrange(p as int, p + 6),
{
    let a: [u8; 6] = [b[p], b[p + 1], b[p + 2], b[p + 3], b[p + 4], b[p + 5]];
    assert(a@ =~= b@.subrange(p as int, p + 6));
    a
}

/// The bytes `b[s..e]`, copied.
pub fn copy_range(b: &[u8], s: usize, e: usize) -> (v: Vec<u8>)
    requires
        s <= e <= b@.len(),
    ensures
        v@ == b@.subrange(s as int, e as int),
{
    let mut v: Vec<u8> = Vec::new();
    let mut i: usize = s;
    while i < e
        invariant
            s <= i <= e <= b@.len(),
            v@ == b@.subrange(s as int, i as int),
        decreases e - i,
    {
        v.push(b[i]);
        i = i + 1;
    }
    v
}

/// The flags of an advertising report's Flags section.
#[derive(Debug, Clone, Copy, PartialEq, Eq, Structural)]
pub struct AdvertisingFlags {
    bits: u8,
}

impl View for AdvertisingFlags {
    type V = u8;

    closed spec fn view(&self) -> u8 {
        self.bits
    }
}

impl AdvertisingFlags {
    /// The bit of each flag.
    pub const LE_LIMITED_DISCOVERABLE_MODE: u8 = 0x01;

    pub const LE_GENERAL_DISCOVERABLE_MODE: u8 = 0x02;

    pub const BR_EDR_NOT_SUPPORTED: u8 = 0x04;

    pub const SIMULTANEOUS_LE_BR_EDR_TO_SAME_DEVICE_CAPABLE_CONTROLLER: u8 = 0x08;

    pub const SIMULTANEOUS_LE_BR_EDR_TO_SAME_DEVICE_CAPABLE_HOST: u8 = 0x10;

    pub const RESERVED3: u8 = 0x20;

    pub const RESERVED2: u8 = 0x40;

    pub const RESERVED1: u8 = 0x80;

    /// The flags whose bits are set in `bits`; every bit names a flag.
    pub fn from_bits_truncate(bits: u8) -> (f: AdvertisingFlags)
        ensures
            f@ == bits,
    {
        AdvertisingFlags { bits }
    }

    /// The bits of these flags.
    pub fn bits(&self) -> (b: u8)
        ensures
            b == self@,
    {
        self.bits
    }
}

/// Decodes bytes as UTF-8, replacing every invalid sequence with U+FFFD
/// (std's `String::from_utf8_lossy`).
pub uninterp spec fn spec_utf8_lossy(b: Seq<u8>) -> Seq<char>;

/// Decodes a name with std's `String::from_utf8_lossy`; the contract names
/// the result, and states the documented fact that valid UTF-8 decodes to
/// its characters unchanged.
#[verifier::external_body]
fn utf8_lossy(b: &[u8]) -> (s: String)
    ensures
        s@ == spec_utf8_lossy(b@),
        vstd::utf8::valid_utf8(b@) ==> s@ == vstd::utf8::decode_utf8(b@),
{
    String::from_utf8_lossy(b).into_owned()
}

/// One element of the advertising data in an LE advertising report.
#[derive(Debug, PartialEq, Clone)]
pub enum LEAdvertisingData {
    Flags(AdvertisingFlags),
    ServiceClassUUID16(u16),
    ServiceClassUUID128([u8; 16]),
    LocalName(String),
    TxPowerLevel(i8),
    SlaveConnectionIntervalRange(u16, u16),
    SolicitationUUID16(u16),
    SolicitationUUID128([u8; 16]),
    ServiceData16(u16, Vec<u8>),
    ServiceData32(u32, Vec<u8>),
    ServiceData128([u8; 16], Vec<u8>),
    SolicitationUUID32(u32),
    ManufacturerSpecific(Vec<u8>),
}

/// The mathematical value of an advertising data element.
pub enum SpecAdvertisingData {
    Flags(u8),
    ServiceClassUUID16(u16),
    ServiceClassUUID128(Seq<u8>),
    LocalName(Seq<char>),
    TxPowerLevel(i8),
    SlaveConnectionIntervalRange(u16, u16),
    SolicitationUUID16(u16),
    SolicitationUUID128(Seq<u8>),
    ServiceData16(u16, Seq<u8>),
    ServiceData32(u32, Seq<u8>),
    ServiceData128(Seq<u8>, Seq<u8>),
    SolicitationUUID32(u32),
    ManufacturerSpecific(Seq<u8>),
}

impl View for LEAdvertisingData {
    type V = SpecAdvertisingData;

    open spec fn view(&self) -> SpecAdvertisingData {
        match self {
            LEAdvertisingData::Flags(f) => SpecAdvertisingData::Flags(f@),
            LEAdvertisingData::ServiceClassUUID16(u) => SpecAdvertisingData::ServiceClassUUID16(*u),
            LEAdvertisingData::ServiceClassUUID128(a) => SpecAdvertisingData::ServiceClassUUID128(a@),
            LEAdvertisingData::LocalName(n) => SpecAdvertisingData::LocalName(n@),
            LEAdvertisingData::TxPowerLevel(t) => SpecAdvertisingData::TxPowerLevel(*t),
            LEAdvertisingData::SlaveConnectionIntervalRange(a, b) => SpecAdvertisingData::SlaveConnectionIntervalRange(*a, *b),
            LEAdvertisingData::SolicitationUUID16(u) => SpecAdvertisingData::SolicitationUUID16(*u),
            LEAdvertisingData::SolicitationUUID128(a) => SpecAdvertisingData::SolicitationUUID128(a@),
            LEAdvertisingData::ServiceData16(u, d) => SpecAdvertisingData::ServiceData16(*u, d@),
            LEAdvertisingData::ServiceData32(u, d) => SpecAdvertisingData::ServiceData32(*u, d@),
            LEAdvertisingData::ServiceData128(a, d) => SpecAdvertisingData::ServiceData128(a@, d@),
            LEAdvertisingData::SolicitationUUID32(u) => SpecAdvertisingData::SolicitationUUID32(*u),
            LEAdvertisingData::ManufacturerSpecific(d) => SpecAdvertisingData::ManufacturerSpecific(d@),
        }
    }
}

/// The values of a sequence of advertising data elements.
pub open spec fn adv_views(s: Seq<LEAdvertisingData>) -> Seq<SpecAdvertisingData> {
    s.map_values(|x: LEAdvertisingData| x@)
}

/// Where reading one advertising data element leaves the reader.
pub enum AdvStep {
    /// No element can be read here, for this reason.
    Stop(ParseError),
    /// Reading an element here makes the reader panic on an arithmetic
    /// underflow or an index past the end.
    Panic,
    /// An element was read; the next one starts at this position.
    Next(int),
}

/// Reading the advertising data element at `p` of the records `d`: a
/// length byte `l` and a type byte, then a payload read by type. The payload
/// size `l - 1` is computed first, so a zero length panics. Several types
/// read a fixed payload whatever the length says; counted types read as many
/// whole items as fit in `l - 1` bytes; an unknown type skips `l - 1` bytes.
/// A payload that the records end inside of stops the reader with the size
/// of the piece it was reading (one byte for byte-wise and 128-bit items).
pub open spec fn spec_adv_step(d: Seq<u8>, p: int) -> AdvStep {
    if p < 0 || d.len() - p < 2 {
        AdvStep::Stop(ParseError::Incomplete(1))
    } else {
        let l = d[p] as int;
        let typ = d[p + 1];
        let q = p + 2;
        let r = d.len() - q;
        let len = l - 1;
        if l == 0 {
            AdvStep::Panic
        } else if typ == 0x01 || typ == 0x0A {
            if r < 1 {
                AdvStep::Stop(ParseError::Incomplete(1))
            } else {
                AdvStep::Next(q + 1)
            }
        } else if typ == 0x02 || typ == 0x03 || typ == 0x14 {
            if r < 2 * (len / 2) {
                AdvStep::Stop(ParseError::Incomplete(2))
            } else {
                AdvStep::Next(q + 2 * (len / 2))
            }
        } else if typ == 0x06 || typ == 0x07 || typ == 0x15 {
            if r < 16 * (len / 16) {
                AdvStep::Stop(ParseError::Incomplete(1))
            } else {
                AdvStep::Next(q + 16 * (len / 16))
            }
        } else if typ == 0x1F {
            if r < 4 * (len / 4) {
                AdvStep::Stop(ParseError::Incomplete(4))
            } else {
                AdvStep::Next(q + 4 * (len / 4))
            }
        } else if typ == 0x08 || typ == 0x09 {
            if r < len {
                AdvStep::Stop(ParseError::Incomplete(len as usize))
            } else {
                AdvStep::Next(q + len)
            }
        } else if typ == 0xFF {
            if r < len {
                AdvStep::Stop(ParseError::Incomplete(1))
            } else {
                AdvStep::Next(q + len)
            }
        } else if typ == 0x12 {
            if r < 4 {
                AdvStep::Stop(ParseError::Incomplete(2))
            } else {
                AdvStep::Next(q + 4)
            }
        } else if typ == 0x16 || typ == 0x20 || typ == 0x21 {
            let head: int = if typ == 0x16 {
                2
            } else if typ == 0x20 {
                4
            } else {
                16
            };
            if r < head {
                AdvStep::Stop(ParseError::Incomplete(if typ == 0x21 { 1 } else { head as usize }))
            } else if len < head {
                AdvStep::Panic
            } else if r < len {
                AdvStep::Stop(ParseError::Incomplete(1))
            } else {
                AdvStep::Next(q + len)
            }
        } else {
            if len > r {
                AdvStep::Panic
            } else {
                AdvStep::Next(q + len)
            }
        }
    }
}

/// The elements that the advertising data element at `p` yields when it
/// can be read.
pub open spec fn spec_adv_values(d: Seq<u8>, p: int) -> Seq<SpecAdvertisingData> {
    let l = d[p] as int;
    let typ = d[p + 1];
    let q = p + 2;
    let len = l - 1;
    if typ == 0x01 {
        seq![SpecAdvertisingData::Flags(d[q])]
    } else if typ == 0x0A {
        seq![SpecAdvertisingData::TxPowerLevel(d[q] as i8)]
    } else if typ == 0x02 || typ == 0x03 {
        Seq::new((len / 2) as nat, |k: int| SpecAdvertisingData::ServiceClassUUID16(le16(d, q + 2 * k)))
    } else if typ == 0x14 {
        Seq::new((len / 2) as nat, |k: int| SpecAdvertisingData::SolicitationUUID16(le16(d, q + 2 * k)))
    } else if typ == 0x06 || typ == 0x07 {
        Seq::new(
            (len / 16) as nat,
            |k: int| SpecAdvertisingData::ServiceClassUUID128(d.subrange(q + 16 * k, q + 16 * k + 16)),
        )
    } else if typ == 0x15 {
        Seq::new(
            (len / 16) as nat,
            |k: int| SpecAdvertisingData::SolicitationUUID128(d.subrange(q + 16 * k, q + 16 * k + 16)),
        )
    } else if typ == 0x1F {
        Seq::new((len / 4) as nat, |k: int| SpecAdvertisingData::SolicitationUUID32(le32(d, q + 4 * k)))
    } else if typ == 0x08 || typ == 0x09 {
        seq![SpecAdvertisingData::LocalName(spec_utf8_lossy(d.subrange(q, q + len)))]
    } else if typ == 0xFF {
        seq![SpecAdvertisingData::ManufacturerSpecific(d.subrange(q, q + len))]
    } else if typ == 0x12 {
        seq![SpecAdvertisingData::SlaveConnectionIntervalRange(le16(d, q), le16(d, q + 2))]
    } else if typ == 0x16 {
        seq![SpecAdvertisingData::ServiceData16(le16(d, q), d.subrange(q + 2, q + len))]
    } else if typ == 0x20 {
        seq![SpecAdvertisingData::ServiceData32(le32(d, q), d.subrange(q + 4, q + len))]
    } else if typ == 0x21 {
        seq![SpecAdvertisingData::ServiceData128(d.subrange(q, q + 16), d.subrange(q + 16, q + len))]
    } else {
        Seq::empty()
    }
}

/// Whether the advertising data element at `p` is a local name (shortened
/// or complete).
pub open spec fn spec_is_name(d: Seq<u8>, p: int) -> bool {
    d[p + 1] == 0x08 || d[p + 1] == 0x09
}

/// The payload of the advertising data element at `p`: the bytes after its
/// type, as many as its length byte counts beyond the type.
pub open spec fn spec_name_bytes(d: Seq<u8>, p: int) -> Seq<u8> {
    d.subrange(p + 2, p + 2 + (d[p] as int - 1))
}

/// Every element read from the advertising records `d` from `p` on, until
/// one cannot be read.
pub open spec fn spec_adv_fold(d: Seq<u8>, p: int) -> Seq<SpecAdvertisingData>
    decreases d.len() - p,
{
    match spec_adv_step(d, p) {
        AdvStep::Next(np) => if p < np <= d.len() {
            spec_adv_values(d, p) + spec_adv_fold(d, np)
        } else {
            Seq::empty()
        },
        _ => Seq::empty(),
    }
}

/// Whether reading the advertising records `d` from `p` on panics.
pub open spec fn spec_adv_panics(d: Seq<u8>, p: int) -> bool
    decreases d.len() - p,
{
    match spec_adv_step(d, p) {
        AdvStep::Panic => true,
        AdvStep::Next(np) => if p < np <= d.len() {
            spec_adv_panics(d, np)
        } else {
            false
        },
        AdvStep::Stop(_) => false,
    }
}

pub proof fn lemma_adv_step_progress(d: Seq<u8>, p: int)
    ensures
        spec_adv_step(d, p) matches AdvStep::Next(np) ==> p + 2 <= np <= d.len(),
{
}

fn read_array16(d: &[u8], q: usize) -> (a: [u8; 16])
    requires
        q + 16 <= d@.len(),
    ensures
        a@ == d@.subrange(q as int, q + 16),
{
    let a: [u8; 16] = [
        d[q], d[q + 1], d[q + 2], d[q + 3], d[q + 4], d[q + 5], d[q + 6], d[q + 7],
        d[q + 8], d[q + 9], d[q + 10], d[q + 11], d[q + 12], d[q + 13], d[q + 14], d[q + 15],
    ];
    assert(a@ =~= d@.subrange(q as int, q + 16));
    a
}

/// Reads the advertising data element at `p`, appending what it yields, and
/// gives the position after it.
fn read_adv_element(d: &[u8], p: usize, out: &mut Vec<LEAdvertisingData>) -> (next: Result<usize, ParseError>)
    requires
        p <= d@.len(),
        !(spec_adv_step(d@, p as int) is Panic),
    ensures
        match spec_adv_step(d@, p as int) {
            AdvStep::Stop(e) => next == Err::<usize, ParseError>(e) && final(out)@ == old(out)@,
            AdvStep::Next(np) => next matches Ok(n) && n == np && adv_views(final(out)@)
                == adv_views(old(out)@) + spec_adv_values(d@, p as int),
            AdvStep::Panic => false,
        },
        spec_adv_step(d@, p as int) is Next && spec_is_name(d@, p as int) && vstd::utf8::valid_utf8(
            spec_name_bytes(d@, p as int),
        ) ==> spec_utf8_lossy(spec_name_bytes(d@, p as int)) == vstd::utf8::decode_utf8(
            spec_name_bytes(d@, p as int),
        ),
{
    if d.len() - p < 2 {
        return Err(ParseError::Incomplete(1));
    }
    let l: u8 = d[p];
    let typ: u8 = d[p + 1];
    let q: usize = p + 2;
    let r: usize = d.len() - q;
    let len: usize = l as usize - 1;
    let ghost before = old(out)@;
    if typ == 0x01 || typ == 0x0A {
        if r < 1 {
            return Err(ParseError::Incomplete(1));
        }
        if typ == 0x01 {
            out.push(LEAdvertisingData::Flags(AdvertisingFlags::from_bits_truncate(d[q])));
        } else {
            out.push(LEAdvertisingData::TxPowerLevel(#[verifier::truncate] (d[q] as i8)));
        }
        proof {
            assert(adv_views(out@) =~= adv_views(before) + spec_adv_values(d@, p as int));
        }
        return Ok(q + 1);
    } else if typ == 0x02 || typ == 0x03 || typ == 0x14 {
        let n: usize = len / 2;
        if r < 2 * n {
            return Err(ParseError::Incomplete(2));
        }
        let mut k: usize = 0;
        while k < n
            invariant
                k <= n,
                n == len / 2,
                typ == 0x02 || typ == 0x03 || typ == 0x14,
                q + 2 * n <= d.len(),
                d@[p + 1] == typ,
                d@[p as int] == l,
                len == l - 1,
                q == p + 2,
                adv_views(out@) == adv_views(before) + spec_adv_values(d@, p as int).take(k as int),
            decreases n - k,
        {
            let at: usize = q + 2 * k;
            let v: u16 = u16_at(d, at);
            let ghost prev = out@;
            if typ == 0x14 {
                out.push(LEAdvertisingData::SolicitationUUID16(v));
            } else {
                out.push(LEAdvertisingData::ServiceClassUUID16(v));
            }
            proof {
                let vals = spec_adv_values(d@, p as int);
                assert(out@ == prev.push(out@[out@.len() - 1]));
                assert(out@[out@.len() - 1]@ == vals[k as int]);
                assert(vals.take(k + 1) =~= vals.take(k as int).push(vals[k as int]));
                assert(adv_views(out@) =~= adv_views(prev).push(vals[k as int]));
            }
            k = k + 1;
        }
        proof {
            let vals = spec_adv_values(d@, p as int);
            assert(vals.take(n as int) =~= vals);
        }
        return Ok(q + 2 * n);
    } else if typ == 0x1F {
        let n: usize = len / 4;
        if r < 4 * n {
            return Err(ParseError::Incomplete(4));
        }
        let mut k: usize = 0;
        while k < n
            invariant
                k <= n,
                n == len / 4,
                typ == 0x1F,
                q + 4 * n <= d.len(),
                d@[p + 1] == typ,
                d@[p as int] == l,
                len == l - 1,
                q == p + 2,
                adv_views(out@) == adv_views(before) + spec_adv_values(d@, p as int).take(k as int),
            decreases n - k,
        {
            let at: usize = q + 4 * k;
            let v: u32 = u32_at(d, at);
            let ghost prev = out@;
            out.push(LEAdvertisingData::SolicitationUUID32(v));
            proof {
                let vals = spec_adv_values(d@, p as int);
                assert(out@ == prev.push(out@[out@.len() - 1]));
                assert(out@[out@.len() - 1]@ == vals[k as int]);
                assert(vals.take(k + 1) =~= vals.take(k as int).push(vals[k as int]));
                assert(adv_views(out@) =~= adv_views(prev).push(vals[k as int]));
            }
            k = k + 1;
        }
        proof {
            let vals = spec_adv_values(d@, p as int);
            assert(vals.take(n as int) =~= vals);
        }
        return Ok(q + 4 * n);
    } else if typ == 0x06 || typ == 0x07 || typ == 0x15 {
        let n: usize = len / 16;
        if r < 16 * n {
            return Err(ParseError::Incomplete(1));
        }
        let mut k: usize = 0;
        while k < n
            invariant
                k <= n,
                n == len / 16,
                typ == 0x06 || typ == 0x07 || typ == 0x15,
                q + 16 * n <= d.len(),
                d@[p + 1] == typ,
                d@[p as int] == l,
                len == l - 1,
                q == p + 2,
                adv_views(out@) == adv_views(before) + spec_adv_values(d@, p as int).take(k as int),
            decreases n - k,
        {
            let at: usize = q + 16 * k;
            let a: [u8; 16] = read_array16(d, at);
            let ghost prev = out@;
            if typ == 0x15 {
                out.push(LEAdvertisingData::SolicitationUUID128(a));
            } else {
                out.push(LEAdvertisingData::ServiceClassUUID128(a));
            }
            proof {
                let vals = spec_adv_values(d@, p as int);
                assert(out@ == prev.push(out@[out@.len() - 1]));
                assert(out@[out@.len() - 1]@ == vals[k as int]);
                assert(vals.take(k + 1) =~= vals.take(k as int).push(vals[k as int]));
                assert(adv_views(out@) =~= adv_views(prev).push(vals[k as int]));
            }
            k = k + 1;
        }
        proof {
            let vals = spec_adv_values(d@, p as int);
            assert(vals.take(n as int) =~= vals);
        }
        return Ok(q + 16 * n);
    } else if typ == 0x08 || typ == 0x09 || typ == 0xFF {
        if r < len {
            return Err(if typ == 0xFF { ParseError::Incomplete(1) } else { ParseError::Incomplete(len) });
        }
        if typ == 0xFF {
            out.push(LEAdvertisingData::ManufacturerSpecific(copy_range(d, q, q + len)));
        } else {
            let name_bytes: Vec<u8> = copy_range(d, q, q + len);
            let name = utf8_lossy(name_bytes.as_slice());
            assert(name_bytes@ == spec_name_bytes(d@, p as int));
            out.push(LEAdvertisingData::LocalName(name));
        }
        proof {
            assert(adv_views(out@) =~= adv_views(before) + spec_adv_values(d@, p as int));
        }
        return Ok(q + len);
    } else if typ == 0x12 {
        if r < 4 {
            return Err(ParseError::Incomplete(2));
        }
        let min: u16 = u16_at(d, q);
        let max: u16 = u16_at(d, q + 2);
        out.push(LEAdvertisingData::SlaveConnectionIntervalRange(min, max));
        proof {
            assert(adv_views(out@) =~= adv_views(before) + spec_adv_values(d@, p as int));
        }
        return Ok(q + 4);
    } else if typ == 0x16 || typ == 0x20 || typ == 0x21 {
        let head: usize = if typ == 0x16 {
            2
        } else if typ == 0x20 {
            4
        } else {
            16
        };
        if r < head {
            return Err(ParseError::Incomplete(if typ == 0x21 { 1 } else { head }));
        }
        if r < len {
            return Err(ParseError::Incomplete(1));
        }
        let data: Vec<u8> = copy_range(d, q + head, q + len);
        if typ == 0x16 {
            let u: u16 = u16_at(d, q);
            out.push(LEAdvertisingData::ServiceData16(u, data));
        } else if typ == 0x20 {
            let v: u32 = u32_at(d, q);
            out.push(LEAdvertisingData::ServiceData32(v, data));
        } else {
            let a: [u8; 16] = read_array16(d, q);
            out.push(LEAdvertisingData::ServiceData128(a, data));
        }
        proof {
            assert(adv_views(out@) =~= adv_views(before) + spec_adv_values(d@, p as int));
        }
        return Ok(q + len);
    } else {
        proof {
            assert(adv_views(out@) =~= adv_views(before) + spec_adv_values(d@, p as int));
        }
        return Ok(q + len);
    }
}

/// Reads advertising data elements from the records `d` until one cannot be
/// read.
pub(crate) fn le_advertising_records(d: &[u8]) -> (v: Vec<LEAdvertisingData>)
    requires
        !spec_adv_panics(d@, 0),
    ensures
        adv_views(v@) == spec_adv_fold(d@, 0),
{
    let mut v: Vec<LEAdvertisingData> = Vec::new();
    let mut p: usize = 0;
    proof {
        assert(adv_views(v@) =~= Seq::<SpecAdvertisingData>::empty());
    }
    loop
        invariant
            p <= d@.len(),
            !spec_adv_panics(d@, p as int),
            spec_adv_fold(d@, 0) == adv_views(v@) + spec_adv_fold(d@, p as int),
        decreases d@.len() - p,
    {
        proof {
            lemma_adv_step_progress(d@, p as int);
        }
        match read_adv_element(d, p, &mut v) {
            Err(_) => {
                proof {
                    assert(spec_adv_fold(d@, p as int) =~= Seq::<SpecAdvertisingData>::empty());
                    assert(adv_views(v@) + Seq::<SpecAdvertisingData>::empty() =~= adv_views(v@));
                }
                return v;
            },
            Ok(np) => {
                proof {
                    assert(spec_adv_step(d@, p as int) == AdvStep::Next(np as int));
                    assert(spec_adv_panics(d@, p as int) == spec_adv_panics(d@, np as int));
                    assert(spec_adv_fold(d@, p as int) == spec_adv_values(d@, p as int) + spec_adv_fold(
                        d@,
                        np as int,
                    ));
                    let a = adv_views(v@);
                    assert(spec_adv_fold(d@, 0) =~= a + spec_adv_fold(d@, np as int));
                }
                p = np;
            },
        }
    }
}

/// Reads one advertising data element at the start of `i`: the elements it
/// yields and the input after it.
pub fn le_advertising_data(i: &[u8]) -> (r: Result<(&[u8], Vec<LEAdvertisingData>), ParseError>)
    requires
        !(spec_adv_step(i@, 0) is Panic),
    ensures
        match spec_adv_step(i@, 0) {
            AdvStep::Stop(e) => r == Err::<(&[u8], Vec<LEAdvertisingData>), ParseError>(e),
            AdvStep::Next(np) => r matches Ok((rest, v)) && rest@ == i@.subrange(np, i@.len() as int)
                && adv_views(v@) == spec_adv_values(i@, 0),
            AdvStep::Panic => false,
        },
        spec_adv_step(i@, 0) is Next && spec_is_name(i@, 0) && vstd::utf8::valid_utf8(spec_name_bytes(i@, 0))
            ==> (r matches Ok((_, v)) && adv_views(v@) == seq![
            SpecAdvertisingData::LocalName(vstd::utf8::decode_utf8(spec_name_bytes(i@, 0))),
        ]),
{
    let mut v: Vec<LEAdvertisingData> = Vec::new();
    match read_adv_element(i, 0, &mut v) {
        Err(e) => Err(e),
        Ok(np) => {
            proof {
                assert(adv_views(v@) =~= Seq::<SpecAdvertisingData>::empty() + spec_adv_values(i@, 0));
            }
            let (_, rest) = i.split_at(np);
            Ok((rest, v))
        },
    }
}

/// The lists of 128-bit service class UUIDs (advertising data types 0x06,
/// incomplete, and 0x07, complete) give one service class UUID for each
/// sixteen payload bytes, in order; only the list of 128-bit service
/// solicitation UUIDs (type 0x15) gives solicitation UUIDs. An element of
/// another type gives no 128-bit UUID of either kind.
pub proof fn law_128_bit_uuid_lists_by_type(d: Seq<u8>, p: int)
    requires
        d[p] >= 1,
    ensures
        (d[p + 1] == 0x06 || d[p + 1] == 0x07) ==> {
            &&& spec_adv_values(d, p).len() == (d[p] - 1) / 16
            &&& forall|k: int|
                0 <= k < spec_adv_values(d, p).len() ==> #[trigger] spec_adv_values(d, p)[k]
                    == SpecAdvertisingData::ServiceClassUUID128(d.subrange(p + 2 + 16 * k, p + 18 + 16 * k))
        },
        d[p + 1] == 0x15 ==> {
            &&& spec_adv_values(d, p).len() == (d[p] - 1) / 16
            &&& forall|k: int|
                0 <= k < spec_adv_values(d, p).len() ==> #[trigger] spec_adv_values(d, p)[k]
                    == SpecAdvertisingData::SolicitationUUID128(d.subrange(p + 2 + 16 * k, p + 18 + 16 * k))
        },
        forall|k: int|
            0 <= k < spec_adv_values(d, p).len() && (#[trigger] spec_adv_values(d, p)[k]) is ServiceClassUUID128
                ==> d[p + 1] == 0x06 || d[p + 1] == 0x07,
        forall|k: int|
            0 <= k < spec_adv_values(d, p).len() && (#[trigger] spec_adv_values(d, p)[k]) is SolicitationUUID128
                ==> d[p + 1] == 0x15,
{
}

/// The lists of 16-bit service class UUIDs (advertising data types 0x02,
/// incomplete, and 0x03, complete) give one little-endian service class
/// UUID for each two payload bytes, in order; only the list of 16-bit
/// service solicitation UUIDs (type 0x14) gives 16-bit solicitation UUIDs.
pub proof fn law_16_bit_uuid_lists_by_type(d: Seq<u8>, p: int)
    requires
        d[p] >= 1,
    ensures
        (d[p + 1] == 0x02 || d[p + 1] == 0x03) ==> {
            &&& spec_adv_values(d, p).len() == (d[p] - 1) / 2
            &&& forall|k: int|
                0 <= k < spec_adv_values(d, p).len() ==> #[trigger] spec_adv_values(d, p)[k]
                    == SpecAdvertisingData::ServiceClassUUID16((d[p + 2 + 2 * k] + 256 * d[p + 3 + 2 * k]) as u16)
        },
        d[p + 1] == 0x14 ==> {
            &&& spec_adv_values(d, p).len() == (d[p] - 1) / 2
            &&& forall|k: int|
                0 <= k < spec_adv_values(d, p).len() ==> #[trigger] spec_adv_values(d, p)[k]
                    == SpecAdvertisingData::SolicitationUUID16((d[p + 2 + 2 * k] + 256 * d[p + 3 + 2 * k]) as u16)
        },
        forall|k: int|
            0 <= k < spec_adv_values(d, p).len() && (#[trigger] spec_adv_values(d, p)[k]) is ServiceClassUUID16
                ==> d[p + 1] == 0x02 || d[p + 1] == 0x03,
        forall|k: int|
            0 <= k < spec_adv_values(d, p).len() && (#[trigger] spec_adv_values(d, p)[k]) is SolicitationUUID16
                ==> d[p + 1] == 0x14,
{
}

/// The flags (type 0x01) and transmit power (type 0x0A, a signed byte)
/// elements give their first payload byte; the manufacturer-specific element
/// (type 0xFF) gives its whole payload. No other type gives these.
pub proof fn law_single_value_elements_by_type(d: Seq<u8>, p: int)
    requires
        d[p] >= 1,
    ensures
        d[p + 1] == 0x01 ==> spec_adv_values(d, p) == seq![SpecAdvertisingData::Flags(d[p + 2])],
        d[p + 1] == 0x0A ==> spec_adv_values(d, p) == seq![SpecAdvertisingData::TxPowerLevel(d[p + 2] as i8)],
        d[p + 1] == 0xFF ==> spec_adv_values(d, p) == seq![
            SpecAdvertisingData::ManufacturerSpecific(d.subrange(p + 2, p + 1 + d[p])),
        ],
        forall|k: int|
            0 <= k < spec_adv_values(d, p).len() && (#[trigger] spec_adv_values(d, p)[k]) is Flags ==> d[p + 1]
                == 0x01,
        forall|k: int|
            0 <= k < spec_adv_values(d, p).len() && (#[trigger] spec_adv_values(d, p)[k]) is TxPowerLevel
                ==> d[p + 1] == 0x0A,
        forall|k: int|
            0 <= k < spec_adv_values(d, p).len() && (#[trigger] spec_adv_values(d, p)[k]) is ManufacturerSpecific
                ==> d[p + 1] == 0xFF,
{
}

} // verus!

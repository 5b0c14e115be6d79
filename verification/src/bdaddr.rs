//! Bluetooth device addresses (six bytes, most significant first), their
//! text forms and their integer form.

use vstd::prelude::*;
use vstd::string::StringSliceAdditionalSpecFns;
use vstd::utf8::{encode_utf8, is_ascii_chars, is_ascii_chars_concat, is_ascii_chars_encode_utf8};
use crate::text::{byte_hex_lower, byte_hex_upper, hex_char_lower, push_byte_hex, string_push};

verus! {

/// Stores the 6 byte address used to identify Bluetooth devices.
#[derive(Clone, Copy, Hash, Default, Debug)]
pub struct BDAddr {
    address: [u8; 6],
}

impl PartialEq for BDAddr {
    fn eq(&self, other: &BDAddr) -> (r: bool) {
        let r = self.address[0] == other.address[0] && self.address[1] == other.address[1]
            && self.address[2] == other.address[2] && self.address[3] == other.address[3]
            && self.address[4] == other.address[4] && self.address[5] == other.address[5];
        proof {
            if r {
                assert(self.address@ =~= other.address@);
            }
        }
        r
    }
}

impl vstd::std_specs::cmp::PartialEqSpecImpl for BDAddr {
    open spec fn obeys_eq_spec() -> bool {
        true
    }

    open spec fn eq_spec(&self, other: &BDAddr) -> bool {
        self@ == other@
    }
}

impl Eq for BDAddr {
}

impl View for BDAddr {
    type V = Seq<u8>;

    closed spec fn view(&self) -> Seq<u8> {
        self.address@
    }
}

/// Every address has six bytes.
pub proof fn lemma_bdaddr_len(a: BDAddr)
    ensures
        a@.len() == 6,
{
}

/// The kind of failure when a number is read from text (the model of std's
/// `IntErrorKind` for the cases an unsigned byte can produce).
#[derive(Clone, Copy, PartialEq, Eq, Structural, Debug)]
pub enum IntErrorKind {
    /// The text is empty.
    Empty,
    /// The text holds a character that is not a digit of the radix.
    InvalidDigit,
    /// The number is too large for the target type.
    PosOverflow,
}

/// An error from reading a number from text (the model of std's
/// `ParseIntError`).
#[derive(Clone, Copy, PartialEq, Eq, Structural, Debug)]
pub struct ParseIntError {
    pub kind: IntErrorKind,
}

/// An error from reading a Bluetooth address.
#[derive(Clone, Copy, PartialEq, Eq, Structural, Debug)]
pub enum ParseBDAddrError {
    /// Bluetooth address has to be 6 bytes long.
    IncorrectByteCount,
    /// Invalid digit in address.
    InvalidDigit(ParseIntError),
}

impl ParseBDAddrError {
    /// The message this error displays.
    pub fn message(&self) -> (s: String)
        ensures
            s@ == (match self {
                ParseBDAddrError::IncorrectByteCount => "Bluetooth address has to be 6 bytes long"@,
                ParseBDAddrError::InvalidDigit(_) => "Invalid digit in address"@,
            }),
    {
        match self {
            ParseBDAddrError::IncorrectByteCount => String::from_str(
                "Bluetooth address has to be 6 bytes long",
            ),
            ParseBDAddrError::InvalidDigit(_) => String::from_str("Invalid digit in address"),
        }
    }
}

/// The value of a hexadecimal digit character given as its byte.
pub open spec fn spec_hex_value(b: u8) -> Option<nat> {
    if 48 <= b <= 57 {
        Some((b - 48) as nat)
    } else if 97 <= b <= 102 {
        Some((b - 87) as nat)
    } else if 65 <= b <= 70 {
        Some((b - 55) as nat)
    } else {
        None
    }
}

/// Reading the hexadecimal digits `d[i..]` on top of the value `acc`
/// already read: the first character that is no digit fails the read, and
/// so does a value that passes 255.
pub open spec fn spec_scan_hex_digits(d: Seq<u8>, i: int, acc: nat) -> Result<u8, IntErrorKind>
    decreases d.len() - i,
{
    if i < 0 || i >= d.len() {
        Ok(acc as u8)
    } else {
        match spec_hex_value(d[i]) {
            None => Err(IntErrorKind::InvalidDigit),
            Some(x) => if acc * 16 + x > 255 {
                Err(IntErrorKind::PosOverflow)
            } else {
                spec_scan_hex_digits(d, i + 1, acc * 16 + x)
            },
        }
    }
}

/// Reading an unsigned byte in radix 16 from text given as bytes, as std's
/// `u8::from_str_radix(s, 16)` does: an optional `+` sign, then one or more
/// hexadecimal digits of either case.
pub open spec fn spec_parse_u8_hex(b: Seq<u8>) -> Result<u8, IntErrorKind> {
    if b.len() == 0 {
        Err(IntErrorKind::Empty)
    } else if b.len() == 1 && (b[0] == 43 || b[0] == 45) {
        Err(IntErrorKind::InvalidDigit)
    } else if b[0] == 43 {
        spec_scan_hex_digits(b, 1, 0)
    } else {
        spec_scan_hex_digits(b, 0, 0)
    }
}

/// The pieces of `b` between the separator bytes, in order; text with no
/// separator is one piece, and empty text is one empty piece.
pub open spec fn spec_split(b: Seq<u8>, sep: u8) -> Seq<Seq<u8>>
    decreases b.len(),
{
    if b.len() == 0 {
        seq![Seq::<u8>::empty()]
    } else {
        let prev = spec_split(b.drop_last(), sep);
        if b.last() == sep {
            prev.push(Seq::<u8>::empty())
        } else {
            prev.update(prev.len() - 1, prev.last().push(b.last()))
        }
    }
}

/// Reading every piece as a hexadecimal byte, in order; the first piece that
/// fails decides the error.
pub open spec fn spec_parse_pieces(pieces: Seq<Seq<u8>>) -> Result<Seq<u8>, IntErrorKind>
    decreases pieces.len(),
{
    if pieces.len() == 0 {
        Ok(Seq::<u8>::empty())
    } else {
        match spec_parse_pieces(pieces.drop_last()) {
            Err(e) => Err(e),
            Ok(v) => match spec_parse_u8_hex(pieces.last()) {
                Err(e) => Err(e),
                Ok(x) => Ok(v.push(x)),
            },
        }
    }
}

/// What reading an address with colon delimiters yields, over the text's bytes.
pub open spec fn spec_from_str_delim(b: Seq<u8>) -> Result<Seq<u8>, ParseBDAddrError> {
    match spec_parse_pieces(spec_split(b, 58)) {
        Err(k) => Err(ParseBDAddrError::InvalidDigit(ParseIntError { kind: k })),
        Ok(v) => if v.len() == 6 {
            Ok(v)
        } else {
            Err(ParseBDAddrError::IncorrectByteCount)
        },
    }
}

/// The `j`th two-byte group of undelimited text.
pub open spec fn spec_pair(b: Seq<u8>, j: int) -> Seq<u8> {
    b.subrange(2 * j, 2 * j + 2)
}

/// Reading the two-byte groups `j..6` of undelimited text onto the bytes
/// `acc` read so far; the first group that fails decides the error.
pub open spec fn spec_no_delim_from(b: Seq<u8>, j: int, acc: Seq<u8>) -> Result<
    Seq<u8>,
    ParseBDAddrError,
>
    decreases 6 - j,
{
    if j < 0 || j >= 6 {
        Ok(acc)
    } else {
        match spec_parse_u8_hex(spec_pair(b, j)) {
            Err(k) => Err(ParseBDAddrError::InvalidDigit(ParseIntError { kind: k })),
            Ok(x) => spec_no_delim_from(b, j + 1, acc.push(x)),
        }
    }
}

/// What reading an address without delimiters yields, over the text's bytes.
pub open spec fn spec_from_str_no_delim(b: Seq<u8>) -> Result<Seq<u8>, ParseBDAddrError> {
    if b.len() != 12 {
        Err(ParseBDAddrError::IncorrectByteCount)
    } else {
        spec_no_delim_from(b, 0, Seq::<u8>::empty())
    }
}

/// Undelimited text is cut two bytes at a time, and each cut must fall on a
/// character boundary until a group fails to read.
pub open spec fn spec_no_delim_cuts_ok(b: Seq<u8>) -> bool {
    b.len() == 12 ==> forall|j: int|
        0 <= j < 6 && spec_pairs_read_before(b, j) ==> #[trigger] spec_cut_ok(b, j)
}

/// The two-byte groups before group `j` all read as hexadecimal bytes.
pub open spec fn spec_pairs_read_before(b: Seq<u8>, j: int) -> bool {
    forall|k: int| 0 <= k < j ==> spec_parse_u8_hex(#[trigger] spec_pair(b, k)) is Ok
}

/// The cut after group `j` falls on a character boundary.
pub open spec fn spec_cut_ok(b: Seq<u8>, j: int) -> bool {
    vstd::utf8::is_char_boundary(b, 2 * j + 2)
}

/// Whether the text's bytes hold a colon.
pub open spec fn spec_has_colon(b: Seq<u8>) -> bool {
    exists|i: int| 0 <= i < b.len() && b[i] == 58
}

/// What reading an address in either form yields.
pub open spec fn spec_from_str(b: Seq<u8>) -> Result<Seq<u8>, ParseBDAddrError> {
    if spec_has_colon(b) {
        spec_from_str_delim(b)
    } else {
        spec_from_str_no_delim(b)
    }
}

/// The six bytes in two-digit hexadecimal, separated by colons.
pub open spec fn spec_colon_hex(a: Seq<u8>, upper: bool) -> Seq<char> {
    let h = |b: u8| if upper { byte_hex_upper(b) } else { byte_hex_lower(b) };
    h(a[0]) + seq![':'] + h(a[1]) + seq![':'] + h(a[2]) + seq![':'] + h(a[3]) + seq![':'] + h(
        a[4],
    ) + seq![':'] + h(a[5])
}

/// The six bytes in two-digit lower-case hexadecimal, without separators.
pub open spec fn spec_no_delim_hex(a: Seq<u8>) -> Seq<char> {
    byte_hex_lower(a[0]) + byte_hex_lower(a[1]) + byte_hex_lower(a[2]) + byte_hex_lower(a[3])
        + byte_hex_lower(a[4]) + byte_hex_lower(a[5])
}

/// Whether cutting undelimited text two bytes at a time keeps to character
/// boundaries up to the first group that fails to read.
pub fn no_delim_cuts_ok(s: &str) -> (r: bool)
    ensures
        r == spec_no_delim_cuts_ok(s.spec_bytes()),
{
    let b: &[u8] = s.as_bytes();
    if b.len() != 12 {
        return true;
    }
    proof {
        vstd::utf8::encode_utf8_valid_utf8(s@);
    }
    let mut j: usize = 0;
    while j < 6
        invariant
            b@ == s.spec_bytes(),
            b@.len() == 12,
            vstd::utf8::valid_utf8(b@),
            j <= 6,
            spec_pairs_read_before(b@, j as int),
            forall|k: int| 0 <= k < j ==> spec_cut_ok(b@, k),
        decreases 6 - j,
    {
        let idx: usize = 2 * j + 2;
        let ok: bool = idx == 12 || !(0x80 <= b[idx] && b[idx] <= 0xbf);
        proof {
            if idx == 12 {
                vstd::utf8::is_char_boundary_start_end_of_seq(b@);
            } else {
                vstd::utf8::is_char_boundary_iff_not_is_continuation_byte(b@, idx as int);
            }
            assert(ok == spec_cut_ok(b@, j as int));
        }
        if !ok {
            return false;
        }
        if parse_u8_hex(b, 2 * j, 2 * j + 2).is_err() {
            proof {
                assert forall|jj: int| 0 <= jj < 6 && spec_pairs_read_before(b@, jj) implies #[trigger] spec_cut_ok(
                    b@,
                    jj,
                ) by {
                    if jj > j {
                        assert(spec_parse_u8_hex(spec_pair(b@, j as int)) is Ok);
                    }
                }
            }
            return true;
        }
        proof {
            assert forall|k: int| 0 <= k < j + 1 implies spec_parse_u8_hex(#[trigger] spec_pair(b@, k)) is Ok by {
                if k < j {
                    assert(spec_pairs_read_before(b@, j as int));
                }
            }
        }
        j = j + 1;
    }
    true
}

/// The address whose bytes are the low 48 bits of `x`, most significant first.
pub open spec fn spec_from_u64(x: u64) -> Seq<u8> {
    seq![
        (x as nat / 0x100_0000_0000 % 256) as u8,
        (x as nat / 0x1_0000_0000 % 256) as u8,
        (x as nat / 0x100_0000 % 256) as u8,
        (x as nat / 0x1_0000 % 256) as u8,
        (x as nat / 0x100 % 256) as u8,
        (x as nat % 256) as u8,
    ]
}

/// The integer whose low 48 bits are the address, most significant byte first.
pub open spec fn spec_to_u64(a: Seq<u8>) -> u64 {
    (a[0] * 0x100_0000_0000 + a[1] * 0x1_0000_0000 + a[2] * 0x100_0000 + a[3] * 0x1_0000 + a[4]
        * 0x100 + a[5]) as u64
}

/// Reads an unsigned byte in radix 16 from `b[start..end]`, as
/// `u8::from_str_radix` does.
pub fn parse_u8_hex(b: &[u8], start: usize, end: usize) -> (res: Result<u8, ParseIntError>)
    requires
        start <= end <= b@.len(),
    ensures
        match res {
            Ok(v) => spec_parse_u8_hex(b@.subrange(start as int, end as int)) == Ok::<
                u8,
                IntErrorKind,
            >(v),
            Err(e) => spec_parse_u8_hex(b@.subrange(start as int, end as int)) == Err::<
                u8,
                IntErrorKind,
            >(e.kind),
        },
{
    let ghost d = b@.subrange(start as int, end as int);
    if start == end {
        return Err(ParseIntError { kind: IntErrorKind::Empty });
    }
    if end - start == 1 && (b[start] == 43 || b[start] == 45) {
        return Err(ParseIntError { kind: IntErrorKind::InvalidDigit });
    }
    let mut i: usize = if b[start] == 43 {
        start + 1
    } else {
        start
    };
    let ghost first: int = i - start;
    let mut acc: u32 = 0;
    while i < end
        invariant
            start <= i <= end <= b@.len(),
            d == b@.subrange(start as int, end as int),
            acc <= 255,
            spec_parse_u8_hex(d) == spec_scan_hex_digits(d, i - start, acc as nat),
        decreases end - i,
    {
        let c: u8 = b[i];
        let x: u32 = if 48 <= c && c <= 57 {
            (c - 48) as u32
        } else if 97 <= c && c <= 102 {
            (c - 87) as u32
        } else if 65 <= c && c <= 70 {
            (c - 55) as u32
        } else {
            return Err(ParseIntError { kind: IntErrorKind::InvalidDigit });
        };
        if acc * 16 + x > 255 {
            return Err(ParseIntError { kind: IntErrorKind::PosOverflow });
        }
        acc = acc * 16 + x;
        i = i + 1;
    }
    Ok(acc as u8)
}

/// Two-digit hexadecimal of each byte, joined by `sep` when it is given.
fn push_hex_bytes(s: &mut String, a: &[u8; 6], upper: bool, colons: bool)
    ensures
        colons ==> final(s)@ == old(s)@ + spec_colon_hex(a@, upper),
        !colons && !upper ==> final(s)@ == old(s)@ + spec_no_delim_hex(a@),
{
    let ghost start = s@;
    let mut i: usize = 0;
    let ghost mut acc: Seq<char> = Seq::empty();
    while i < 6
        invariant
            0 <= i <= 6,
            s@ == start + acc,
            i == 0 ==> acc == Seq::<char>::empty(),
            i >= 1 ==> colons ==> acc == spec_colon_prefix(a@, upper, (i - 1) as nat),
            i >= 1 ==> !colons && !upper ==> acc == spec_no_delim_prefix(a@, (i - 1) as nat),
        decreases 6 - i,
    {
        if colons && i > 0 {
            string_push(s, ':');
            proof {
                acc = acc.push(':');
            }
        }
        push_byte_hex(s, a[i], upper);
        proof {
            acc = acc + (if upper { byte_hex_upper(a@[i as int]) } else { byte_hex_lower(a@[i as int]) });
            if i >= 1 {
                assert(acc =~= (if colons { spec_colon_prefix(a@, upper, i as nat) } else { acc }));
            }
        }
        i = i + 1;
    }
    proof {
        reveal_with_fuel(spec_colon_prefix, 6);
        reveal_with_fuel(spec_no_delim_prefix, 6);
        assert(spec_colon_prefix(a@, upper, 5) =~= spec_colon_hex(a@, upper));
        assert(spec_no_delim_prefix(a@, 5) =~= spec_no_delim_hex(a@));
    }
}

/// The colon-joined hexadecimal of bytes `0..=k`.
pub open spec fn spec_colon_prefix(a: Seq<u8>, upper: bool, k: nat) -> Seq<char>
    decreases k,
{
    let h = if upper { byte_hex_upper(a[k as int]) } else { byte_hex_lower(a[k as int]) };
    if k == 0 {
        h
    } else {
        spec_colon_prefix(a, upper, (k - 1) as nat) + seq![':'] + h
    }
}

/// The undelimited lower-case hexadecimal of bytes `0..=k`.
pub open spec fn spec_no_delim_prefix(a: Seq<u8>, k: nat) -> Seq<char>
    decreases k,
{
    if k == 0 {
        byte_hex_lower(a[0])
    } else {
        spec_no_delim_prefix(a, (k - 1) as nat) + byte_hex_lower(a[k as int])
    }
}

impl BDAddr {
    /// Build an address from an array; `address[0]` is the most significant
    /// byte and `address[5]` the least.
    pub fn from_array(address: [u8; 6]) -> (r: BDAddr)
        ensures
            r@ == address@,
    {
        BDAddr { address }
    }

    /// Destruct the address into the underlying array.
    pub fn into_inner(self) -> (a: [u8; 6])
        ensures
            a@ == self@,
    {
        self.address
    }

    /// The address bytes, most significant first.
    pub fn as_slice(&self) -> (s: &[u8])
        ensures
            s@ == self@,
    {
        self.address.as_slice()
    }

    /// Check if this address is a randomly generated static address: its
    /// last byte has both low bits set.
    pub fn is_random_static(&self) -> (b: bool)
        ensures
            b == (self@[5] % 4 == 3),
    {
        proof {
            assert(self.address@.len() == 6);
        }
        let last: u8 = self.address[5];
        assert((last & 3u8) == last % 4) by (bit_vector);
        last & 0b11 == 0b11
    }
}


pub proof fn lemma_split_take_succ(b: Seq<u8>, sep: u8, i: int)
    requires
        0 <= i < b.len(),
    ensures
        spec_split(b.take(i + 1), sep) == ({
            let prev = spec_split(b.take(i), sep);
            if b[i] == sep {
                prev.push(Seq::<u8>::empty())
            } else {
                prev.update(prev.len() - 1, prev.last().push(b[i]))
            }
        }),
{
    assert(b.take(i + 1).drop_last() =~= b.take(i));
}

pub proof fn lemma_split_nonempty(b: Seq<u8>, sep: u8)
    ensures
        spec_split(b, sep).len() >= 1,
    decreases b.len(),
{
    if b.len() > 0 {
        lemma_split_nonempty(b.drop_last(), sep);
    }
}

/// The pieces of a prefix, all but its last, are the first pieces of the whole.
pub proof fn lemma_split_prefix(b: Seq<u8>, sep: u8, k: int)
    requires
        0 <= k <= b.len(),
    ensures
        spec_split(b, sep).len() >= spec_split(b.take(k), sep).len(),
        forall|j: int|
            0 <= j < spec_split(b.take(k), sep).len() - 1 ==> spec_split(b, sep)[j] == spec_split(
                b.take(k),
                sep,
            )[j],
    decreases b.len() - k,
{
    if k == b.len() {
        assert(b.take(k) =~= b);
    } else {
        lemma_split_prefix(b, sep, k + 1);
        lemma_split_take_succ(b, sep, k);
        lemma_split_nonempty(b.take(k), sep);
    }
}

/// Once the first `n` pieces fail to read, every longer run of pieces that
/// starts with them fails the same way.
pub proof fn lemma_parse_pieces_err_prefix(p: Seq<Seq<u8>>, q: Seq<Seq<u8>>, n: int)
    requires
        0 <= n <= p.len(),
        n <= q.len(),
        forall|j: int| 0 <= j < n ==> p[j] == q[j],
        spec_parse_pieces(p.take(n)) is Err,
    ensures
        spec_parse_pieces(q) == spec_parse_pieces(p.take(n)),
    decreases q.len(),
{
    if q.len() == n {
        assert(q =~= p.take(n));
    } else {
        lemma_parse_pieces_err_prefix(p, q.drop_last(), n);
    }
}

impl BDAddr {
    /// Parses a Bluetooth address with colons `:` as delimiters; each part
    /// is read as `u8::from_str_radix(part, 16)` reads it.
    pub fn from_str_delim(s: &str) -> (res: Result<BDAddr, ParseBDAddrError>)
        ensures
            match res {
                Ok(a) => spec_from_str_delim(s.spec_bytes()) == Ok::<Seq<u8>, ParseBDAddrError>(a@),
                Err(e) => spec_from_str_delim(s.spec_bytes()) == Err::<Seq<u8>, ParseBDAddrError>(e),
            },
    {
        let b: &[u8] = s.as_bytes();
        let ghost bb = b@;
        let mut vals: Vec<u8> = Vec::new();
        let ghost mut done: Seq<Seq<u8>> = Seq::empty();
        let mut start: usize = 0;
        let mut i: usize = 0;
        assert(bb.take(0) =~= Seq::<u8>::empty());
        assert(bb.subrange(0, 0) =~= Seq::<u8>::empty());
        assert(done.push(Seq::<u8>::empty()) =~= seq![Seq::<u8>::empty()]);
        while i < b.len()
            invariant
                bb == b@,
                bb == s.spec_bytes(),
                start <= i <= b@.len(),
                spec_split(bb.take(i as int), 58) == done.push(bb.subrange(start as int, i as int)),
                spec_parse_pieces(done) == Ok::<Seq<u8>, IntErrorKind>(vals@),
            decreases b@.len() - i,
        {
            proof {
                lemma_split_take_succ(bb, 58, i as int);
            }
            if b[i] == 58 {
                let ghost piece = bb.subrange(start as int, i as int);
                match parse_u8_hex(b, start, i) {
                    Err(e) => {
                        proof {
                            let p = done.push(piece);
                            assert(p.drop_last() =~= done);
                            assert(p.take(p.len() as int) =~= p);
                            assert(spec_parse_pieces(p) == Err::<Seq<u8>, IntErrorKind>(e.kind));
                            lemma_split_prefix(bb, 58, i + 1);
                            assert(spec_split(bb.take(i + 1), 58) == p.push(Seq::<u8>::empty()));
                            assert forall|j: int| 0 <= j < p.len() implies p[j] == spec_split(
                                bb,
                                58,
                            )[j] by {
                                assert(p[j] == p.push(Seq::<u8>::empty())[j]);
                            }
                            lemma_parse_pieces_err_prefix(p, spec_split(bb, 58), p.len() as int);
                        }
                        return Err(ParseBDAddrError::InvalidDigit(e));
                    },
                    Ok(x) => {
                        proof {
                            let p = done.push(piece);
                            assert(p.drop_last() =~= done);
                            done = p;
                        }
                        vals.push(x);
                        start = i + 1;
                        assert(bb.subrange(start as int, (i + 1) as int) =~= Seq::<u8>::empty());
                    },
                }
            } else {
                assert(bb.subrange(start as int, (i + 1) as int) =~= bb.subrange(
                    start as int,
                    i as int,
                ).push(bb[i as int]));
            }
            i = i + 1;
        }
        assert(bb.take(b@.len() as int) =~= bb);
        let ghost pieces = done.push(bb.subrange(start as int, b@.len() as int));
        assert(pieces.drop_last() =~= done);
        match parse_u8_hex(b, start, b.len()) {
            Err(e) => {
                return Err(ParseBDAddrError::InvalidDigit(e));
            },
            Ok(x) => {
                vals.push(x);
            },
        }
        if vals.len() == 6 {
            let address: [u8; 6] = [vals[0], vals[1], vals[2], vals[3], vals[4], vals[5]];
            assert(address@ =~= vals@);
            Ok(BDAddr { address })
        } else {
            Err(ParseBDAddrError::IncorrectByteCount)
        }
    }

    /// Parses a Bluetooth address without delimiters: twelve bytes, read two
    /// at a time as hexadecimal bytes.
    pub fn from_str_no_delim(s: &str) -> (res: Result<BDAddr, ParseBDAddrError>)
        ensures
            match res {
                Ok(a) => spec_no_delim_any(s.spec_bytes()) == Ok::<Seq<u8>, ParseBDAddrError>(a@),
                Err(e) => spec_no_delim_any(s.spec_bytes()) == Err::<Seq<u8>, ParseBDAddrError>(e),
            },
    {
        let b: &[u8] = s.as_bytes();
        if b.len() != 12 {
            return Err(ParseBDAddrError::IncorrectByteCount);
        }
        if !no_delim_cuts_ok(s) {
            return Err(ParseBDAddrError::InvalidDigit(ParseIntError { kind: IntErrorKind::InvalidDigit }));
        }
        let mut vals: Vec<u8> = Vec::new();
        let mut j: usize = 0;
        while j < 6
            invariant
                b@.len() == 12,
                b@ == s.spec_bytes(),
                j <= 6,
                vals@.len() == j,
                spec_no_delim_cuts_ok(b@),
                spec_from_str_no_delim(b@) == spec_no_delim_from(b@, j as int, vals@),
            decreases 6 - j,
        {
            match parse_u8_hex(b, 2 * j, 2 * j + 2) {
                Err(e) => {
                    return Err(ParseBDAddrError::InvalidDigit(e));
                },
                Ok(x) => {
                    vals.push(x);
                },
            }
            j = j + 1;
        }
        let address: [u8; 6] = [vals[0], vals[1], vals[2], vals[3], vals[4], vals[5]];
        assert(address@ =~= vals@);
        Ok(BDAddr { address })
    }

    /// Parses a Bluetooth address of the form `aa:bb:cc:dd:ee:ff` or of the
    /// form `aabbccddeeff`; all hex digits `[0-9a-fA-F]` are allowed.
    pub fn from_str(s: &str) -> (res: Result<BDAddr, ParseBDAddrError>)
        ensures
            match res {
                Ok(a) => spec_parse_any(s.spec_bytes()) == Ok::<Seq<u8>, ParseBDAddrError>(a@),
                Err(e) => spec_parse_any(s.spec_bytes()) == Err::<Seq<u8>, ParseBDAddrError>(e),
            },
    {
        let b: &[u8] = s.as_bytes();
        let mut i: usize = 0;
        while i < b.len()
            invariant
                i <= b@.len(),
                b@ == s.spec_bytes(),
                forall|k: int| 0 <= k < i ==> b@[k] != 58,
            decreases b@.len() - i,
        {
            if b[i] == 58 {
                return Self::from_str_delim(s);
            }
            i = i + 1;
        }
        Self::from_str_no_delim(s)
    }

    /// Reads an address from the first six bytes of a slice.
    pub fn try_from_slice(slice: &[u8]) -> (res: Result<BDAddr, ParseBDAddrError>)
        ensures
            slice@.len() < 6 ==> res == Err::<BDAddr, ParseBDAddrError>(
                ParseBDAddrError::IncorrectByteCount,
            ),
            slice@.len() >= 6 ==> res is Ok && res.unwrap()@ == slice@.take(6),
    {
        if slice.len() < 6 {
            Err(ParseBDAddrError::IncorrectByteCount)
        } else {
            let address: [u8; 6] = [slice[0], slice[1], slice[2], slice[3], slice[4], slice[5]];
            assert(address@ =~= slice@.take(6));
            Ok(BDAddr { address })
        }
    }

    /// The address whose bytes are the low 48 bits of `value`, most
    /// significant first.
    pub fn from_u64(value: u64) -> (r: BDAddr)
        ensures
            r@ == spec_from_u64(value),
    {
        let address: [u8; 6] = [
            (value / 0x100_0000_0000 % 256) as u8,
            (value / 0x1_0000_0000 % 256) as u8,
            (value / 0x100_0000 % 256) as u8,
            (value / 0x1_0000 % 256) as u8,
            (value / 0x100 % 256) as u8,
            (value % 256) as u8,
        ];
        assert(address@ =~= spec_from_u64(value));
        BDAddr { address }
    }

    /// The integer whose low 48 bits are the address, most significant byte
    /// first.
    pub fn to_u64(&self) -> (x: u64)
        ensures
            x == spec_to_u64(self@),
    {
        let a = self.address;
        proof {
            assert(a@.len() == 6);
        }
        a[0] as u64 * 0x100_0000_0000 + a[1] as u64 * 0x1_0000_0000 + a[2] as u64 * 0x100_0000
            + a[3] as u64 * 0x1_0000 + a[4] as u64 * 0x100 + a[5] as u64
    }

    /// The address in upper-case hexadecimal with colons, `1F:2A:00:CC:22:F1`
    /// (what the address displays as).
    pub fn to_string(&self) -> (s: String)
        ensures
            s@ == spec_colon_hex(self@, true),
    {
        let mut s = String::new();
        push_hex_bytes(&mut s, &self.address, true, true);
        assert(s@ =~= spec_colon_hex(self@, true));
        s
    }

    /// The address in lower-case hexadecimal with colons, `1f:2a:00:cc:22:f1`.
    pub fn to_lower_hex_string(&self) -> (s: String)
        ensures
            s@ == spec_colon_hex(self@, false),
    {
        let mut s = String::new();
        push_hex_bytes(&mut s, &self.address, false, true);
        assert(s@ =~= spec_colon_hex(self@, false));
        s
    }

    /// The address in upper-case hexadecimal with colons.
    pub fn to_upper_hex_string(&self) -> (s: String)
        ensures
            s@ == spec_colon_hex(self@, true),
    {
        self.to_string()
    }

    /// Writes the address without delimiters, in lower-case hexadecimal.
    pub fn write_no_delim(&self, f: &mut String)
        ensures
            final(f)@ == old(f)@ + spec_no_delim_hex(self@),
    {
        push_hex_bytes(f, &self.address, false, false);
    }

    /// Create a `String` with the address with no delimiters,
    /// `1f2a00cc22f1`.
    pub fn to_string_no_delim(&self) -> (s: String)
        ensures
            s@ == spec_no_delim_hex(self@),
    {
        let mut s = String::new();
        self.write_no_delim(&mut s);
        assert(s@ =~= spec_no_delim_hex(self@));
        s
    }
}

/// What reading undelimited text yields for any text: as
/// [`spec_from_str_no_delim`], but twelve bytes whose two-byte cuts would
/// split a character hold an invalid digit.
pub open spec fn spec_no_delim_any(b: Seq<u8>) -> Result<Seq<u8>, ParseBDAddrError> {
    if !spec_no_delim_cuts_ok(b) {
        Err(ParseBDAddrError::InvalidDigit(ParseIntError { kind: IntErrorKind::InvalidDigit }))
    } else {
        spec_from_str_no_delim(b)
    }
}

/// What reading an address in either form yields for any text: as
/// [`spec_from_str`], but undelimited text whose two-byte cuts would split a
/// character holds an invalid digit.
pub open spec fn spec_parse_any(b: Seq<u8>) -> Result<Seq<u8>, ParseBDAddrError> {
    if !spec_has_colon(b) && !spec_no_delim_cuts_ok(b) {
        Err(ParseBDAddrError::InvalidDigit(ParseIntError { kind: IntErrorKind::InvalidDigit }))
    } else {
        spec_from_str(b)
    }
}

impl core::str::FromStr for BDAddr {
    type Err = ParseBDAddrError;

    /// Parses a Bluetooth address of the form `aa:bb:cc:dd:ee:ff` or of the
    /// form `aabbccddeeff`. Undelimited text whose two-byte cuts would split
    /// a character is reported as holding an invalid digit.
    fn from_str(s: &str) -> (res: Result<BDAddr, ParseBDAddrError>)
        ensures
            match res {
                Ok(a) => spec_parse_any(s.spec_bytes()) == Ok::<Seq<u8>, ParseBDAddrError>(a@),
                Err(e) => spec_parse_any(s.spec_bytes()) == Err::<Seq<u8>, ParseBDAddrError>(e),
            },
    {
        BDAddr::from_str(s)
    }
}

impl From<[u8; 6]> for BDAddr {
    fn from(address: [u8; 6]) -> (r: BDAddr) {
        BDAddr { address }
    }
}

impl vstd::std_specs::convert::FromSpecImpl<[u8; 6]> for BDAddr {
    open spec fn obeys_from_spec() -> bool {
        true
    }

    closed spec fn from_spec(address: [u8; 6]) -> BDAddr {
        BDAddr { address }
    }
}

impl From<u64> for BDAddr {
    fn from(value: u64) -> (r: BDAddr) {
        let r = BDAddr::from_u64(value);
        proof {
            let c = choose|a: BDAddr| a@ == spec_from_u64(value);
            assert(c.address =~= r.address);
        }
        r
    }
}

impl vstd::std_specs::convert::FromSpecImpl<u64> for BDAddr {
    open spec fn obeys_from_spec() -> bool {
        true
    }

    open spec fn from_spec(value: u64) -> BDAddr {
        choose|a: BDAddr| a@ == spec_from_u64(value)
    }
}

impl From<BDAddr> for u64 {
    fn from(addr: BDAddr) -> (x: u64) {
        addr.to_u64()
    }
}

impl vstd::std_specs::convert::FromSpecImpl<BDAddr> for u64 {
    open spec fn obeys_from_spec() -> bool {
        true
    }

    open spec fn from_spec(addr: BDAddr) -> u64 {
        spec_to_u64(addr@)
    }
}

/// Reading an integer into an address and back keeps its low 48 bits.
pub proof fn lemma_u64_round_trip(x: u64)
    ensures
        spec_to_u64(spec_from_u64(x)) == x % 0x1_0000_0000_0000,
{
    let a = spec_from_u64(x);
    assert((x / 0x100_0000_0000 % 256) * 0x100_0000_0000 + (x / 0x1_0000_0000 % 256) * 0x1_0000_0000
        + (x / 0x100_0000 % 256) * 0x100_0000 + (x / 0x1_0000 % 256) * 0x1_0000 + (x / 0x100 % 256)
        * 0x100 + x % 256 == x % 0x1_0000_0000_0000) by (bit_vector);
}

/// Turning an address into an integer and back gives the address again.
pub proof fn lemma_addr_round_trip(a: Seq<u8>)
    requires
        a.len() == 6,
    ensures
        spec_from_u64(spec_to_u64(a)) == a,
{
    let (a0, a1, a2, a3, a4, a5) = (a[0] as u64, a[1] as u64, a[2] as u64, a[3] as u64, a[4] as u64, a[5] as u64);
    let x: u64 = spec_to_u64(a);
    assert(x == a0 * 0x100_0000_0000 + a1 * 0x1_0000_0000 + a2 * 0x100_0000 + a3 * 0x1_0000 + a4
        * 0x100 + a5);
    assert(x / 0x100_0000_0000 % 256 == a0 && x / 0x1_0000_0000 % 256 == a1 && x / 0x100_0000 % 256
        == a2 && x / 0x1_0000 % 256 == a3 && x / 0x100 % 256 == a4 && x % 256 == a5) by (bit_vector)
        requires
            a0 < 256 && a1 < 256 && a2 < 256 && a3 < 256 && a4 < 256 && a5 < 256,
            x == a0 * 0x100_0000_0000 + a1 * 0x1_0000_0000 + a2 * 0x100_0000 + a3 * 0x1_0000 + a4
                * 0x100 + a5,
    ;
    assert(spec_from_u64(x) =~= a);
}

/// The bytes of a byte's two hexadecimal digits.
pub open spec fn hex_pair_bytes(v: u8, upper: bool) -> Seq<u8> {
    let h = if upper { byte_hex_upper(v) } else { byte_hex_lower(v) };
    seq![h[0] as u8, h[1] as u8]
}

/// The two digits of a byte are ASCII, are no colon, and read back as the
/// byte.
proof fn lemma_hex_pair(v: u8, upper: bool)
    ensures
        is_ascii_chars(if upper { byte_hex_upper(v) } else { byte_hex_lower(v) }),
        hex_pair_bytes(v, upper)[0] != 58 && hex_pair_bytes(v, upper)[1] != 58,
        spec_parse_u8_hex(hex_pair_bytes(v, upper)) == Ok::<u8, IntErrorKind>(v),
{
    let hi = v as nat / 16;
    let lo = v as nat % 16;
    let p = hex_pair_bytes(v, upper);
    assert(p.len() == 2);
    assert(spec_hex_value(p[0]) == Some(hi));
    assert(spec_hex_value(p[1]) == Some(lo));
    assert(p[0] != 43);
    assert(spec_scan_hex_digits(p, 2, hi * 16 + lo) == Ok::<u8, IntErrorKind>((hi * 16 + lo) as u8));
    assert(spec_scan_hex_digits(p, 1, hi) == spec_scan_hex_digits(p, 2, hi * 16 + lo));
    assert(spec_scan_hex_digits(p, 0, 0) == spec_scan_hex_digits(p, 1, hi));
}

/// Text without the separator is one piece.
proof fn lemma_split_single(y: Seq<u8>, sep: u8)
    requires
        !y.contains(sep),
    ensures
        spec_split(y, sep) == seq![y],
    decreases y.len(),
{
    if y.len() > 0 {
        assert(!y.drop_last().contains(sep)) by {
            if y.drop_last().contains(sep) {
                let i = choose|i: int| 0 <= i < y.drop_last().len() && y.drop_last()[i] == sep;
                assert(y[i] == sep);
            }
        }
        lemma_split_single(y.drop_last(), sep);
        assert(y.last() != sep) by {
            assert(y[y.len() - 1] == y.last());
        }
        assert(y.drop_last().push(y.last()) =~= y);
        assert(spec_split(y, sep) =~= seq![y]);
    } else {
        assert(y =~= Seq::<u8>::empty());
    }
}

/// A separator followed by text without it starts one more piece.
proof fn lemma_split_append(x: Seq<u8>, y: Seq<u8>, sep: u8)
    requires
        !y.contains(sep),
    ensures
        spec_split(x + seq![sep] + y, sep) == spec_split(x, sep).push(y),
    decreases y.len(),
{
    let z = x + seq![sep] + y;
    if y.len() == 0 {
        assert(z.drop_last() =~= x);
        assert(z.last() == sep);
        assert(y =~= Seq::<u8>::empty());
    } else {
        assert(!y.drop_last().contains(sep)) by {
            if y.drop_last().contains(sep) {
                let i = choose|i: int| 0 <= i < y.drop_last().len() && y.drop_last()[i] == sep;
                assert(y[i] == sep);
            }
        }
        lemma_split_append(x, y.drop_last(), sep);
        assert(z.drop_last() =~= x + seq![sep] + y.drop_last());
        assert(z.last() == y.last());
        assert(y.last() != sep) by {
            assert(y[y.len() - 1] == y.last());
        }
        let prev = spec_split(x, sep).push(y.drop_last());
        assert(prev.update(prev.len() - 1, prev.last().push(y.last())) =~= spec_split(x, sep).push(y)) by {
            assert(y.drop_last().push(y.last()) =~= y);
        }
    }
}

/// Two bytes that are no separator hold none.
proof fn lemma_pair_has_no_sep(p: Seq<u8>, sep: u8)
    requires
        p.len() == 2,
        p[0] != sep,
        p[1] != sep,
    ensures
        !p.contains(sep),
{
    if p.contains(sep) {
        let i = choose|i: int| 0 <= i < p.len() && p[i] == sep;
        assert(i == 0 || i == 1);
    }
}

/// Reading one more piece.
proof fn lemma_parse_pieces_push(ps: Seq<Seq<u8>>, p: Seq<u8>, v: Seq<u8>, x: u8)
    requires
        spec_parse_pieces(ps) == Ok::<Seq<u8>, IntErrorKind>(v),
        spec_parse_u8_hex(p) == Ok::<u8, IntErrorKind>(x),
    ensures
        spec_parse_pieces(ps.push(p)) == Ok::<Seq<u8>, IntErrorKind>(v.push(x)),
{
    assert(ps.push(p).drop_last() =~= ps);
}

/// The bytes of an address's display with colons.
pub open spec fn colon_hex_bytes(a: Seq<u8>, upper: bool) -> Seq<u8> {
    hex_pair_bytes(a[0], upper) + seq![58u8] + hex_pair_bytes(a[1], upper) + seq![58u8] + hex_pair_bytes(
        a[2],
        upper,
    ) + seq![58u8] + hex_pair_bytes(a[3], upper) + seq![58u8] + hex_pair_bytes(a[4], upper) + seq![58u8]
        + hex_pair_bytes(a[5], upper)
}

/// Joining ASCII texts gives ASCII text whose bytes are the joined bytes.
proof fn lemma_ascii_concat(x: Seq<char>, y: Seq<char>)
    requires
        is_ascii_chars(x),
        is_ascii_chars(y),
    ensures
        is_ascii_chars(x + y),
        encode_utf8(x + y) == encode_utf8(x) + encode_utf8(y),
{
    is_ascii_chars_concat(x + y, x, y);
    is_ascii_chars_encode_utf8(x);
    is_ascii_chars_encode_utf8(y);
    is_ascii_chars_encode_utf8(x + y);
    let e = encode_utf8(x + y);
    assert forall|i: int| 0 <= i < e.len() implies e[i] == (encode_utf8(x) + encode_utf8(y))[i] by {
        assert((x + y)[i] as u8 == e[i]);
        if i < x.len() {
            assert(x[i] as u8 == encode_utf8(x)[i]);
        } else {
            assert(y[i - x.len()] as u8 == encode_utf8(y)[i - x.len()]);
        }
    }
    assert(e =~= encode_utf8(x) + encode_utf8(y));
}

/// The digits of a byte are ASCII text whose bytes are the digits' bytes.
proof fn lemma_hex_pair_encoding(v: u8, upper: bool)
    ensures
        is_ascii_chars(if upper { byte_hex_upper(v) } else { byte_hex_lower(v) }),
        encode_utf8(if upper { byte_hex_upper(v) } else { byte_hex_lower(v) }) == hex_pair_bytes(v, upper),
{
    lemma_hex_pair(v, upper);
    let h = if upper { byte_hex_upper(v) } else { byte_hex_lower(v) };
    is_ascii_chars_encode_utf8(h);
    assert(h[0] as u8 == encode_utf8(h)[0]);
    assert(h[1] as u8 == encode_utf8(h)[1]);
    assert(encode_utf8(h) =~= hex_pair_bytes(v, upper));
}

/// A colon is ASCII text whose byte is 58.
proof fn lemma_colon_encoding()
    ensures
        is_ascii_chars(seq![':']),
        encode_utf8(seq![':']) == seq![58u8],
{
    is_ascii_chars_encode_utf8(seq![':']);
    assert(seq![':'][0] as u8 == encode_utf8(seq![':'])[0]);
    assert(encode_utf8(seq![':']) =~= seq![58u8]);
}

/// An address's display with colons is ASCII text whose bytes are the
/// digits' bytes and the colons.
proof fn lemma_colon_hex_bytes(a: Seq<u8>, upper: bool)
    requires
        a.len() == 6,
    ensures
        encode_utf8(spec_colon_hex(a, upper)) == colon_hex_bytes(a, upper),
{
    let h = |b: u8| if upper { byte_hex_upper(b) } else { byte_hex_lower(b) };
    let colon = seq![':'];
    lemma_colon_encoding();
    lemma_hex_pair_encoding(a[0], upper);
    lemma_hex_pair_encoding(a[1], upper);
    lemma_hex_pair_encoding(a[2], upper);
    lemma_hex_pair_encoding(a[3], upper);
    lemma_hex_pair_encoding(a[4], upper);
    lemma_hex_pair_encoding(a[5], upper);
    let c1 = h(a[0]) + colon;
    lemma_ascii_concat(h(a[0]), colon);
    let c2 = c1 + h(a[1]);
    lemma_ascii_concat(c1, h(a[1]));
    let c3 = c2 + colon;
    lemma_ascii_concat(c2, colon);
    let c4 = c3 + h(a[2]);
    lemma_ascii_concat(c3, h(a[2]));
    let c5 = c4 + colon;
    lemma_ascii_concat(c4, colon);
    let c6 = c5 + h(a[3]);
    lemma_ascii_concat(c5, h(a[3]));
    let c7 = c6 + colon;
    lemma_ascii_concat(c6, colon);
    let c8 = c7 + h(a[4]);
    lemma_ascii_concat(c7, h(a[4]));
    let c9 = c8 + colon;
    lemma_ascii_concat(c8, colon);
    let c10 = c9 + h(a[5]);
    lemma_ascii_concat(c9, h(a[5]));
    assert(c10 == spec_colon_hex(a, upper));
    assert(encode_utf8(c10) =~= colon_hex_bytes(a, upper));
}

/// Reading an address back from its display with colons, in either case,
/// gives the address.
#[verifier::spinoff_prover]
#[verifier::rlimit(40)]
pub proof fn law_displayed_address_parses_back(a: Seq<u8>, upper: bool)
    requires
        a.len() == 6,
    ensures
        spec_from_str(encode_utf8(spec_colon_hex(a, upper))) == Ok::<Seq<u8>, ParseBDAddrError>(a),
{
    lemma_colon_hex_bytes(a, upper);
    let b = colon_hex_bytes(a, upper);
    let p0 = hex_pair_bytes(a[0], upper);
    let p1 = hex_pair_bytes(a[1], upper);
    let p2 = hex_pair_bytes(a[2], upper);
    let p3 = hex_pair_bytes(a[3], upper);
    let p4 = hex_pair_bytes(a[4], upper);
    let p5 = hex_pair_bytes(a[5], upper);
    lemma_hex_pair(a[0], upper);
    lemma_hex_pair(a[1], upper);
    lemma_hex_pair(a[2], upper);
    lemma_hex_pair(a[3], upper);
    lemma_hex_pair(a[4], upper);
    lemma_hex_pair(a[5], upper);
    lemma_pair_has_no_sep(p0, 58);
    lemma_pair_has_no_sep(p1, 58);
    lemma_pair_has_no_sep(p2, 58);
    lemma_pair_has_no_sep(p3, 58);
    lemma_pair_has_no_sep(p4, 58);
    lemma_pair_has_no_sep(p5, 58);
    let q1 = p0 + seq![58u8] + p1;
    let q2 = q1 + seq![58u8] + p2;
    let q3 = q2 + seq![58u8] + p3;
    let q4 = q3 + seq![58u8] + p4;
    let q5 = q4 + seq![58u8] + p5;
    assert(b =~= q5);
    lemma_split_single(p0, 58);
    lemma_split_append(p0, p1, 58);
    lemma_split_append(q1, p2, 58);
    lemma_split_append(q2, p3, 58);
    lemma_split_append(q3, p4, 58);
    lemma_split_append(q4, p5, 58);
    let ps = seq![p0, p1, p2, p3, p4, p5];
    assert(spec_split(b, 58) =~= ps);
    assert(b[2] == 58);
    assert(spec_has_colon(b));
    assert(spec_parse_pieces(Seq::<Seq<u8>>::empty()) == Ok::<Seq<u8>, IntErrorKind>(Seq::<u8>::empty()));
    lemma_parse_pieces_push(Seq::<Seq<u8>>::empty(), p0, Seq::<u8>::empty(), a[0]);
    assert(Seq::<Seq<u8>>::empty().push(p0) =~= seq![p0]);
    assert(Seq::<u8>::empty().push(a[0]) =~= seq![a[0]]);
    lemma_parse_pieces_push(seq![p0], p1, seq![a[0]], a[1]);
    assert(seq![p0].push(p1) =~= seq![p0, p1]);
    assert(seq![a[0]].push(a[1]) =~= seq![a[0], a[1]]);
    lemma_parse_pieces_push(seq![p0, p1], p2, seq![a[0], a[1]], a[2]);
    assert(seq![p0, p1].push(p2) =~= seq![p0, p1, p2]);
    assert(seq![a[0], a[1]].push(a[2]) =~= seq![a[0], a[1], a[2]]);
    lemma_parse_pieces_push(seq![p0, p1, p2], p3, seq![a[0], a[1], a[2]], a[3]);
    assert(seq![p0, p1, p2].push(p3) =~= seq![p0, p1, p2, p3]);
    assert(seq![a[0], a[1], a[2]].push(a[3]) =~= seq![a[0], a[1], a[2], a[3]]);
    lemma_parse_pieces_push(seq![p0, p1, p2, p3], p4, seq![a[0], a[1], a[2], a[3]], a[4]);
    assert(seq![p0, p1, p2, p3].push(p4) =~= seq![p0, p1, p2, p3, p4]);
    assert(seq![a[0], a[1], a[2], a[3]].push(a[4]) =~= seq![a[0], a[1], a[2], a[3], a[4]]);
    lemma_parse_pieces_push(seq![p0, p1, p2, p3, p4], p5, seq![a[0], a[1], a[2], a[3], a[4]], a[5]);
    assert(seq![p0, p1, p2, p3, p4].push(p5) =~= ps);
    assert(seq![a[0], a[1], a[2], a[3], a[4]].push(a[5]) =~= a);
}

/// The bytes of an address's display without delimiters.
pub open spec fn no_delim_hex_bytes(a: Seq<u8>) -> Seq<u8> {
    hex_pair_bytes(a[0], false) + hex_pair_bytes(a[1], false) + hex_pair_bytes(a[2], false)
        + hex_pair_bytes(a[3], false) + hex_pair_bytes(a[4], false) + hex_pair_bytes(a[5], false)
}

/// An address's display without delimiters is ASCII text whose bytes are
/// the digits' bytes.
proof fn lemma_no_delim_hex_bytes(a: Seq<u8>)
    requires
        a.len() == 6,
    ensures
        encode_utf8(spec_no_delim_hex(a)) == no_delim_hex_bytes(a),
{
    lemma_hex_pair_encoding(a[0], false);
    lemma_hex_pair_encoding(a[1], false);
    lemma_hex_pair_encoding(a[2], false);
    lemma_hex_pair_encoding(a[3], false);
    lemma_hex_pair_encoding(a[4], false);
    lemma_hex_pair_encoding(a[5], false);
    let c1 = byte_hex_lower(a[0]) + byte_hex_lower(a[1]);
    lemma_ascii_concat(byte_hex_lower(a[0]), byte_hex_lower(a[1]));
    let c2 = c1 + byte_hex_lower(a[2]);
    lemma_ascii_concat(c1, byte_hex_lower(a[2]));
    let c3 = c2 + byte_hex_lower(a[3]);
    lemma_ascii_concat(c2, byte_hex_lower(a[3]));
    let c4 = c3 + byte_hex_lower(a[4]);
    lemma_ascii_concat(c3, byte_hex_lower(a[4]));
    let c5 = c4 + byte_hex_lower(a[5]);
    lemma_ascii_concat(c4, byte_hex_lower(a[5]));
    assert(c5 == spec_no_delim_hex(a));
}

/// Joining texts without the separator gives text without it.
proof fn lemma_no_sep_concat(x: Seq<u8>, y: Seq<u8>, sep: u8)
    requires
        !x.contains(sep),
        !y.contains(sep),
    ensures
        !(x + y).contains(sep),
{
    if (x + y).contains(sep) {
        let i = choose|i: int| 0 <= i < (x + y).len() && (x + y)[i] == sep;
        if i < x.len() {
            assert(x[i] == sep);
        } else {
            assert(y[i - x.len()] == sep);
        }
    }
}

/// Reading the six groups of undelimited text that each read as the
/// address's byte gives the address.
proof fn lemma_no_delim_groups(b: Seq<u8>, a: Seq<u8>)
    requires
        a.len() == 6,
        forall|j: int| 0 <= j < 6 ==> spec_parse_u8_hex(#[trigger] spec_pair(b, j)) == Ok::<u8, IntErrorKind>(a[j]),
    ensures
        spec_no_delim_from(b, 0, Seq::<u8>::empty()) == Ok::<Seq<u8>, ParseBDAddrError>(a),
{
    let e = Seq::<u8>::empty();
    assert(spec_parse_u8_hex(spec_pair(b, 0)) == Ok::<u8, IntErrorKind>(a[0]));
    assert(spec_parse_u8_hex(spec_pair(b, 1)) == Ok::<u8, IntErrorKind>(a[1]));
    assert(spec_parse_u8_hex(spec_pair(b, 2)) == Ok::<u8, IntErrorKind>(a[2]));
    assert(spec_parse_u8_hex(spec_pair(b, 3)) == Ok::<u8, IntErrorKind>(a[3]));
    assert(spec_parse_u8_hex(spec_pair(b, 4)) == Ok::<u8, IntErrorKind>(a[4]));
    assert(spec_parse_u8_hex(spec_pair(b, 5)) == Ok::<u8, IntErrorKind>(a[5]));
    let v1 = e.push(a[0]);
    let v2 = v1.push(a[1]);
    let v3 = v2.push(a[2]);
    let v4 = v3.push(a[3]);
    let v5 = v4.push(a[4]);
    let v6 = v5.push(a[5]);
    assert(spec_no_delim_from(b, 5, v5) == spec_no_delim_from(b, 6, v6));
    assert(spec_no_delim_from(b, 4, v4) == spec_no_delim_from(b, 5, v5));
    assert(spec_no_delim_from(b, 3, v3) == spec_no_delim_from(b, 4, v4));
    assert(spec_no_delim_from(b, 2, v2) == spec_no_delim_from(b, 3, v3));
    assert(spec_no_delim_from(b, 1, v1) == spec_no_delim_from(b, 2, v2));
    assert(spec_no_delim_from(b, 0, e) == spec_no_delim_from(b, 1, v1));
    assert(v6 =~= a);
}

/// Reading an address back from its display without delimiters gives the
/// address.
pub proof fn law_undelimited_address_parses_back(a: Seq<u8>)
    requires
        a.len() == 6,
    ensures
        spec_no_delim_cuts_ok(encode_utf8(spec_no_delim_hex(a))),
        !spec_has_colon(encode_utf8(spec_no_delim_hex(a))),
        spec_from_str(encode_utf8(spec_no_delim_hex(a))) == Ok::<Seq<u8>, ParseBDAddrError>(a),
{
    lemma_no_delim_hex_bytes(a);
    let b = no_delim_hex_bytes(a);
    let p0 = hex_pair_bytes(a[0], false);
    let p1 = hex_pair_bytes(a[1], false);
    let p2 = hex_pair_bytes(a[2], false);
    let p3 = hex_pair_bytes(a[3], false);
    let p4 = hex_pair_bytes(a[4], false);
    let p5 = hex_pair_bytes(a[5], false);
    lemma_hex_pair(a[0], false);
    lemma_hex_pair(a[1], false);
    lemma_hex_pair(a[2], false);
    lemma_hex_pair(a[3], false);
    lemma_hex_pair(a[4], false);
    lemma_hex_pair(a[5], false);
    lemma_pair_has_no_sep(p0, 58);
    lemma_pair_has_no_sep(p1, 58);
    lemma_pair_has_no_sep(p2, 58);
    lemma_pair_has_no_sep(p3, 58);
    lemma_pair_has_no_sep(p4, 58);
    lemma_pair_has_no_sep(p5, 58);
    lemma_no_sep_concat(p0, p1, 58);
    lemma_no_sep_concat(p0 + p1, p2, 58);
    lemma_no_sep_concat(p0 + p1 + p2, p3, 58);
    lemma_no_sep_concat(p0 + p1 + p2 + p3, p4, 58);
    lemma_no_sep_concat(p0 + p1 + p2 + p3 + p4, p5, 58);
    assert(!spec_has_colon(b)) by {
        if spec_has_colon(b) {
            let i = choose|i: int| 0 <= i < b.len() && b[i] == 58;
            assert(b.contains(58));
        }
    }
    assert(b.len() == 12);
    assert(spec_pair(b, 0) =~= p0);
    assert(spec_pair(b, 1) =~= p1);
    assert(spec_pair(b, 2) =~= p2);
    assert(spec_pair(b, 3) =~= p3);
    assert(spec_pair(b, 4) =~= p4);
    assert(spec_pair(b, 5) =~= p5);
    assert forall|j: int| 0 <= j < 6 implies spec_parse_u8_hex(#[trigger] spec_pair(b, j)) == Ok::<
        u8,
        IntErrorKind,
    >(a[j]) by {
        if j == 0 {
        } else if j == 1 {
        } else if j == 2 {
        } else if j == 3 {
        } else if j == 4 {
        } else {
        }
    }
    lemma_no_delim_groups(b, a);
    vstd::utf8::encode_utf8_valid_utf8(spec_no_delim_hex(a));
    vstd::utf8::is_char_boundary_start_end_of_seq(b);
    assert forall|j: int| 0 <= j < 6 && spec_pairs_read_before(b, j) implies #[trigger] spec_cut_ok(b, j) by {
        if j < 5 {
            let k = 2 * j + 2;
            vstd::utf8::is_char_boundary_iff_not_is_continuation_byte(b, k);
            assert(b[k] == spec_pair(b, j + 1)[0]);
        }
    }
}

/// Whether a character is a lower-case hexadecimal digit.
pub open spec fn is_lower_hex_digit(c: char) -> bool {
    ('0' <= c <= '9') || ('a' <= c <= 'f')
}

/// The display without delimiters is twelve lower-case hexadecimal digits,
/// and `from_str_no_delim` reads the address back from it.
pub proof fn law_no_delim_display_round_trip(addr: BDAddr)
    ensures
        spec_no_delim_hex(addr@).len() == 12,
        forall|i: int| 0 <= i < 12 ==> is_lower_hex_digit(#[trigger] spec_no_delim_hex(addr@)[i]),
        spec_no_delim_any(encode_utf8(spec_no_delim_hex(addr@))) == Ok::<Seq<u8>, ParseBDAddrError>(addr@),
{
    lemma_bdaddr_len(addr);
    let a = addr@;
    law_undelimited_address_parses_back(a);
    let h = spec_no_delim_hex(a);
    assert forall|b: u8, k: int| 0 <= k < 2 implies is_lower_hex_digit(#[trigger] byte_hex_lower(b)[k]) by {
        let d: nat = if k == 0 { b as nat / 16 } else { b as nat % 16 };
        assert(byte_hex_lower(b)[k] == hex_char_lower(d));
        assert(d < 16);
    }
    assert forall|i: int| 0 <= i < 12 implies is_lower_hex_digit(#[trigger] h[i]) by {
        let j = i / 2;
        assert(h[i] == byte_hex_lower(a[j])[i % 2]);
    }
}

} // verus!

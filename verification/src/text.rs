//! Hexadecimal text: the digit characters, fixed-width renderings of
//! numbers, and the one `String` operation the formatters build on.

use vstd::prelude::*;
use vstd::string::StringSliceAdditionalSpecFns;

verus! {

/// The lower-case hexadecimal digit for `d` (0 to 15).
pub open spec fn hex_char_lower(d: nat) -> char {
    if d < 10 {
        ((d + 48) as u8) as char
    } else {
        ((d - 10 + 97) as u8) as char
    }
}

/// The upper-case hexadecimal digit for `d` (0 to 15).
pub open spec fn hex_char_upper(d: nat) -> char {
    if d < 10 {
        ((d + 48) as u8) as char
    } else {
        ((d - 10 + 65) as u8) as char
    }
}

/// `n` shifted right by `k` hexadecimal digits.
pub open spec fn shr16(n: nat, k: nat) -> nat
    decreases k,
{
    if k == 0 {
        n
    } else {
        shr16(n / 16, (k - 1) as nat)
    }
}

/// The number of significant hexadecimal digits of `n` (one for zero).
pub open spec fn hex_len(n: nat) -> nat
    decreases n,
{
    if n < 16 {
        1
    } else {
        1 + hex_len(n / 16)
    }
}

/// The `w` lowest hexadecimal digits of `n`, most significant first.
pub open spec fn hex_lower_fixed(n: nat, w: nat) -> Seq<char> {
    Seq::new(w, |i: int| hex_char_lower(shr16(n, (w - 1 - i) as nat) % 16))
}

/// `n` in lower-case hexadecimal without leading zeros, zero-padded to at
/// least `min` digits.
pub open spec fn hex_lower_padded(n: nat, min: nat) -> Seq<char> {
    hex_lower_fixed(n, if hex_len(n) < min { min } else { hex_len(n) })
}

/// The two lower-case hexadecimal digits of a byte.
pub open spec fn byte_hex_lower(b: u8) -> Seq<char> {
    seq![hex_char_lower(b as nat / 16), hex_char_lower(b as nat % 16)]
}

/// The two upper-case hexadecimal digits of a byte.
pub open spec fn byte_hex_upper(b: u8) -> Seq<char> {
    seq![hex_char_upper(b as nat / 16), hex_char_upper(b as nat % 16)]
}

pub proof fn lemma_shr16_succ(n: nat, k: nat)
    ensures
        shr16(n, k + 1) == shr16(n, k) / 16,
    decreases k,
{
    if k > 0 {
        lemma_shr16_succ(n / 16, (k - 1) as nat);
    } else {
        reveal_with_fuel(shr16, 2);
    }
}

/// Appends a character to a `String` (std's `String::push`).
#[verifier::external_body]
pub(crate) fn string_push(s: &mut String, c: char)
    ensures
        final(s)@ == old(s)@.push(c),
{
    s.push(c);
}

/// The lower-case hexadecimal digit for `d`.
pub fn hex_digit_lower(d: u8) -> (c: char)
    requires
        d < 16,
    ensures
        c == hex_char_lower(d as nat),
{
    if d < 10 {
        (d + 48) as char
    } else {
        (d - 10 + 97) as char
    }
}

/// The upper-case hexadecimal digit for `d`.
pub fn hex_digit_upper(d: u8) -> (c: char)
    requires
        d < 16,
    ensures
        c == hex_char_upper(d as nat),
{
    if d < 10 {
        (d + 48) as char
    } else {
        (d - 10 + 65) as char
    }
}

/// Appends the two hexadecimal digits of a byte.
pub fn push_byte_hex(s: &mut String, b: u8, upper: bool)
    ensures
        final(s)@ == old(s)@ + (if upper { byte_hex_upper(b) } else { byte_hex_lower(b) }),
{
    let hi: u8 = b / 16;
    let lo: u8 = b % 16;
    if upper {
        string_push(s, hex_digit_upper(hi));
        string_push(s, hex_digit_upper(lo));
    } else {
        string_push(s, hex_digit_lower(hi));
        string_push(s, hex_digit_lower(lo));
    }
    assert(final(s)@ =~= old(s)@ + (if upper { byte_hex_upper(b) } else { byte_hex_lower(b) }));
}

/// Appends `n` in lower-case hexadecimal, zero-padded to at least `min` digits.
pub fn push_hex_lower_padded(s: &mut String, n: u32, min: usize)
    requires
        min <= 16,
    ensures
        final(s)@ == old(s)@ + hex_lower_padded(n as nat, min as nat),
{
    // Count the significant digits.
    let mut len: usize = 1;
    let mut cur: u32 = n;
    proof {
        reveal_with_fuel(pow16_spec, 9);
        lemma_hex_len_bound(n as nat, 8);
    }
    while cur >= 16
        invariant
            1 <= len,
            hex_len(n as nat) <= 8,
            hex_len(n as nat) == len - 1 + hex_len(cur as nat),
            cur as nat == shr16(n as nat, (len - 1) as nat),
        decreases cur,
    {
        proof {
            lemma_shr16_succ(n as nat, (len - 1) as nat);
        }
        cur = cur / 16;
        len = len + 1;
    }
    let w: usize = if len < min { min } else { len };
    let ghost start = s@;
    // Collect the digits from the least significant one.
    let mut digits: Vec<char> = Vec::new();
    let mut v: u32 = n;
    let mut i: usize = 0;
    while i < w
        invariant
            i <= w,
            digits@.len() == i,
            v as nat == shr16(n as nat, i as nat),
            forall|j: int|
                0 <= j < i ==> digits@[j] == hex_char_lower(shr16(n as nat, j as nat) % 16),
        decreases w - i,
    {
        let d: u8 = (v % 16) as u8;
        digits.push(hex_digit_lower(d));
        proof {
            lemma_shr16_succ(n as nat, i as nat);
        }
        v = v / 16;
        i = i + 1;
    }
    let mut k: usize = w;
    while k > 0
        invariant
            k <= w,
            digits@.len() == w,
            forall|j: int|
                0 <= j < w ==> digits@[j] == hex_char_lower(shr16(n as nat, j as nat) % 16),
            s@ == start + hex_lower_fixed(n as nat, w as nat).subrange(0, (w - k) as int),
        decreases k,
    {
        k = k - 1;
        string_push(s, digits[k]);
        proof {
            let full = hex_lower_fixed(n as nat, w as nat);
            assert(full.subrange(0, (w - k) as int) =~= full.subrange(0, (w - k - 1) as int).push(
                full[(w - k - 1) as int],
            ));
        }
    }
    proof {
        let full = hex_lower_fixed(n as nat, w as nat);
        assert(full.subrange(0, w as int) =~= full);
    }
}

/// Sixteen to the power `k`.
pub open spec fn pow16_spec(k: nat) -> nat
    decreases k,
{
    if k == 0 {
        1
    } else {
        16 * pow16_spec((k - 1) as nat)
    }
}

pub proof fn lemma_hex_len_bound(n: nat, k: nat)
    requires
        k >= 1,
        n < pow16_spec(k),
    ensures
        hex_len(n) <= k,
    decreases k,
{
    if n >= 16 {
        if k == 1 {
            assert(pow16_spec(0) == 1);
        } else {
            lemma_hex_len_bound(n / 16, (k - 1) as nat);
        }
    }
}

/// Whether two pieces of text are the same characters.
pub fn str_eq(a: &str, b: &str) -> (r: bool)
    ensures
        r == (a@ == b@),
{
    let x: &[u8] = a.as_bytes();
    let y: &[u8] = b.as_bytes();
    proof {
        vstd::utf8::encode_utf8_decode_utf8(a@);
        vstd::utf8::encode_utf8_decode_utf8(b@);
    }
    if x.len() != y.len() {
        return false;
    }
    let mut i: usize = 0;
    while i < x.len()
        invariant
            x@.len() == y@.len(),
            x@ == a.spec_bytes(),
            y@ == b.spec_bytes(),
            i <= x@.len(),
            forall|k: int| 0 <= k < i ==> x@[k] == y@[k],
        decreases x@.len() - i,
    {
        if x[i] != y[i] {
            return false;
        }
        i = i + 1;
    }
    assert(x@ =~= y@);
    true
}

/// The decimal digits of `n`, most significant first, without leading zeros.
pub open spec fn dec_digits(n: nat) -> Seq<char>
    decreases n,
{
    if n < 10 {
        seq![((n + 48) as u8) as char]
    } else {
        dec_digits(n / 10).push((((n % 10) + 48) as u8) as char)
    }
}

/// Appends `n` in decimal.
pub fn push_decimal(s: &mut String, n: usize)
    ensures
        final(s)@ == old(s)@ + dec_digits(n as nat),
    decreases n,
{
    if n >= 10 {
        push_decimal(s, n / 10);
    }
    let d: u8 = (n % 10) as u8;
    string_push(s, (d + 48) as char);
    proof {
        if n >= 10 {
            assert(final(s)@ =~= old(s)@ + dec_digits(n as nat));
        } else {
            assert(final(s)@ =~= old(s)@ + dec_digits(n as nat));
        }
    }
}

} // verus!

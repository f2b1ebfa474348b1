//! Decimal and hexadecimal text, and little-endian byte encodings.
//!
//! The host protocol carries numbers three ways: decimal text (ports,
//! transport ids), hexadecimal text (payload length prefixes, the server
//! version), and little-endian bytes (transport-id acknowledgements, shell
//! packet lengths).  This module defines the mathematical value of each
//! encoding and verified encoders and decoders for them.

use vstd::prelude::*;

verus! {

// ---------------------------------------------------------------------------
// decimal digit text (sequences of characters)
// ---------------------------------------------------------------------------

pub open spec fn is_dec_digit(c: char) -> bool {
    48 <= c as u32 && c as u32 <= 57
}

pub open spec fn dec_digit_val(c: char) -> nat {
    (c as u32 - 48) as nat
}

pub open spec fn all_dec_digits(s: Seq<char>) -> bool {
    forall|i: int| 0 <= i < s.len() ==> is_dec_digit(#[trigger] s[i])
}

/// Value of a sequence of decimal digits, most significant first.
pub open spec fn dec_seq_val(s: Seq<char>) -> nat
    decreases s.len(),
{
    if s.len() == 0 {
        0
    } else {
        dec_seq_val(s.drop_last()) * 10 + dec_digit_val(s.last())
    }
}

/// The unsigned decimal numbers accepted by Rust's integer `parse`:
/// an optional leading `+`, then at least one digit.
pub open spec fn spec_parse_dec(s: Seq<char>) -> Option<nat> {
    let t = if s.len() > 0 && s[0] == '+' {
        s.drop_first()
    } else {
        s
    };
    if t.len() > 0 && all_dec_digits(t) {
        Some(dec_seq_val(t))
    } else {
        None
    }
}

/// Decimal parse into `u64`: out-of-range values are rejected.
pub open spec fn spec_parse_dec_u64(s: Seq<char>) -> Option<u64> {
    match spec_parse_dec(s) {
        Some(v) => if v <= u64::MAX {
            Some(v as u64)
        } else {
            None
        },
        None => None,
    }
}

/// Decimal parse into `u16`: out-of-range values are rejected.
pub open spec fn spec_parse_dec_u16(s: Seq<char>) -> Option<u16> {
    match spec_parse_dec(s) {
        Some(v) => if v <= u16::MAX {
            Some(v as u16)
        } else {
            None
        },
        None => None,
    }
}

proof fn lemma_dec_take_succ(s: Seq<char>, k: int)
    requires
        0 <= k < s.len(),
    ensures
        dec_seq_val(s.take(k + 1)) == dec_seq_val(s.take(k)) * 10 + dec_digit_val(s[k]),
{
    assert(s.take(k + 1).drop_last() =~= s.take(k));
    assert(s.take(k + 1).last() == s[k]);
}

proof fn lemma_dec_take_le(s: Seq<char>, k: int)
    requires
        0 <= k <= s.len(),
    ensures
        dec_seq_val(s.take(k)) <= dec_seq_val(s),
    decreases s.len() - k,
{
    if k == s.len() {
        assert(s.take(k) =~= s);
    } else {
        lemma_dec_take_succ(s, k);
        lemma_dec_take_le(s, k + 1);
    }
}

/// Parses a string as Rust's `u64` decimal `parse` would.
pub fn parse_dec_u64(s: &str) -> (r: Option<u64>)
    ensures
        r == spec_parse_dec_u64(s@),
{
    let n = s.unicode_len();
    let mut i: usize = 0;
    if n > 0 && s.get_char(0) == '+' {
        i = 1;
    }
    let ghost t = if s@.len() > 0 && s@[0] == '+' {
        s@.drop_first()
    } else {
        s@
    };
    proof {
        assert(t =~= s@.subrange(i as int, n as int));
    }
    if i == n {
        return None;
    }
    let mut acc: u64 = 0;
    let mut j: usize = i;
    while j < n
        invariant
            i <= j <= n,
            n == s@.len(),
            i <= 1,
            t == (if s@.len() > 0 && s@[0] == '+' {
                s@.drop_first()
            } else {
                s@
            }),
            t =~= s@.subrange(i as int, n as int),
            all_dec_digits(t.take(j - i)),
            acc as nat == dec_seq_val(t.take(j - i)),
        decreases n - j,
    {
        let c = s.get_char(j);
        let u = c as u32;
        assert(c == t[j - i]);
        if !(48 <= u && u <= 57) {
            assert(!is_dec_digit(t[j - i]));
            return None;
        }
        let d = (u - 48) as u64;
        proof {
            lemma_dec_take_succ(t, j - i);
        }
        if acc > (u64::MAX - d) / 10 {
            // The value does not fit in a u64: whatever the remaining
            // characters are, the parse fails.
            proof {
                if all_dec_digits(t) {
                    assert(acc * 10 + d > u64::MAX) by {
                        assert(acc >= (u64::MAX - d) / 10 + 1);
                        assert(((u64::MAX - d) / 10 + 1) * 10 == ((u64::MAX - d) / 10) * 10 + 10);
                        assert(((u64::MAX - d) / 10) * 10 > u64::MAX - d - 10);
                        assert(acc * 10 >= ((u64::MAX - d) / 10 + 1) * 10) by (nonlinear_arith)
                            requires acc >= (u64::MAX - d) / 10 + 1;
                    }
                    lemma_dec_take_le(t, j - i + 1);
                }
            }
            return None;
        }
        proof {
            assert(acc * 10 + d <= u64::MAX) by {
                assert(acc <= (u64::MAX - d) / 10);
                assert(acc * 10 <= ((u64::MAX - d) / 10) * 10) by (nonlinear_arith)
                    requires acc <= (u64::MAX - d) / 10;
                assert(((u64::MAX - d) / 10) * 10 <= u64::MAX - d);
            }
        }
        acc = acc * 10 + d;
        j = j + 1;
    }
    proof {
        assert(t.take(n - i) =~= t);
    }
    Some(acc)
}

/// Parses a string as Rust's `u16` decimal `parse` would.
pub fn parse_dec_u16(s: &str) -> (r: Option<u16>)
    ensures
        r == spec_parse_dec_u16(s@),
{
    match parse_dec_u64(s) {
        Some(v) => if v <= 65535 {
            Some(v as u16)
        } else {
            None
        },
        None => None,
    }
}

// ---------------------------------------------------------------------------
// decimal formatting
// ---------------------------------------------------------------------------

/// The character for one decimal digit value.
pub open spec fn dec_digit_char(v: nat) -> char {
    if v == 0 { '0' }
    else if v == 1 { '1' }
    else if v == 2 { '2' }
    else if v == 3 { '3' }
    else if v == 4 { '4' }
    else if v == 5 { '5' }
    else if v == 6 { '6' }
    else if v == 7 { '7' }
    else if v == 8 { '8' }
    else { '9' }
}

/// The canonical decimal spelling of a number: no sign, no leading zeros.
pub open spec fn spec_dec_str(n: nat) -> Seq<char>
    decreases n,
{
    if n < 10 {
        seq![dec_digit_char(n)]
    } else {
        spec_dec_str(n / 10).push(dec_digit_char(n % 10))
    }
}

/// The decimal spelling is made of digits and parses back to the number.
pub proof fn lemma_dec_str_val(n: nat)
    ensures
        spec_dec_str(n).len() > 0,
        all_dec_digits(spec_dec_str(n)),
        dec_seq_val(spec_dec_str(n)) == n,
        spec_dec_str(n)[0] != '+',
        spec_parse_dec(spec_dec_str(n)) == Some(n),
    decreases n,
{
    if n < 10 {
        assert(dec_digit_val(dec_digit_char(n)) == n);
        assert(is_dec_digit(dec_digit_char(n)));
        assert(dec_seq_val(Seq::<char>::empty()) == 0);
        assert(spec_dec_str(n).drop_last() =~= Seq::<char>::empty());
    } else {
        lemma_dec_str_val(n / 10);
        let s = spec_dec_str(n / 10);
        let c = dec_digit_char(n % 10);
        assert(dec_digit_val(c) == n % 10);
        assert(is_dec_digit(c));
        assert(s.push(c).drop_last() =~= s);
        assert(dec_seq_val(s.push(c)) == (n / 10) * 10 + n % 10);
        assert((n / 10) * 10 + n % 10 == n);
        assert(spec_dec_str(n)[0] == s[0]);
    }
}

fn dec_digit_str(d: u64) -> (r: &'static str)
    requires
        d < 10,
    ensures
        r@ =~= seq![dec_digit_char(d as nat)],
{
    proof {
        reveal_strlit("0");
        reveal_strlit("1");
        reveal_strlit("2");
        reveal_strlit("3");
        reveal_strlit("4");
        reveal_strlit("5");
        reveal_strlit("6");
        reveal_strlit("7");
        reveal_strlit("8");
        reveal_strlit("9");
    }
    match d {
        0 => "0",
        1 => "1",
        2 => "2",
        3 => "3",
        4 => "4",
        5 => "5",
        6 => "6",
        7 => "7",
        8 => "8",
        _ => "9",
    }
}

/// Formats a number in decimal, as the protocol spells ports and transport ids.
pub fn fmt_u64(n: u64) -> (r: String)
    ensures
        r@ == spec_dec_str(n as nat),
    decreases n,
{
    let digit = dec_digit_str(n % 10);
    if n < 10 {
        String::from_str(digit)
    } else {
        let prefix = fmt_u64(n / 10);
        prefix.concat(digit)
    }
}

// ---------------------------------------------------------------------------
// hexadecimal digit text (sequences of bytes)
// ---------------------------------------------------------------------------

pub open spec fn is_hex_digit(b: u8) -> bool {
    (48 <= b && b <= 57) || (97 <= b && b <= 102) || (65 <= b && b <= 70)
}

pub open spec fn hex_digit_val(b: u8) -> nat {
    if 48 <= b && b <= 57 {
        (b - 48) as nat
    } else if 97 <= b && b <= 102 {
        (b - 97 + 10) as nat
    } else {
        (b - 65 + 10) as nat
    }
}

pub open spec fn all_hex_digits(s: Seq<u8>) -> bool {
    forall|i: int| 0 <= i < s.len() ==> is_hex_digit(#[trigger] s[i])
}

/// Value of a sequence of hexadecimal digits, most significant first.
pub open spec fn hex_seq_val(s: Seq<u8>) -> nat
    decreases s.len(),
{
    if s.len() == 0 {
        0
    } else {
        hex_seq_val(s.drop_last()) * 16 + hex_digit_val(s.last())
    }
}

/// The numbers accepted by Rust's `from_str_radix(_, 16)`: an optional
/// leading `+`, then at least one hexadecimal digit of either case.
pub open spec fn spec_parse_hex(s: Seq<u8>) -> Option<nat> {
    let t = if s.len() > 0 && s[0] == 43 {
        s.drop_first()
    } else {
        s
    };
    if t.len() > 0 && all_hex_digits(t) {
        Some(hex_seq_val(t))
    } else {
        None
    }
}

/// Hexadecimal parse into `u32`: out-of-range values are rejected.
pub open spec fn spec_parse_hex_u32(s: Seq<u8>) -> Option<u32> {
    match spec_parse_hex(s) {
        Some(v) => if v <= u32::MAX {
            Some(v as u32)
        } else {
            None
        },
        None => None,
    }
}

proof fn lemma_hex_take_succ(s: Seq<u8>, k: int)
    requires
        0 <= k < s.len(),
    ensures
        hex_seq_val(s.take(k + 1)) == hex_seq_val(s.take(k)) * 16 + hex_digit_val(s[k]),
{
    assert(s.take(k + 1).drop_last() =~= s.take(k));
    assert(s.take(k + 1).last() == s[k]);
}

proof fn lemma_hex_take_le(s: Seq<u8>, k: int)
    requires
        0 <= k <= s.len(),
    ensures
        hex_seq_val(s.take(k)) <= hex_seq_val(s),
    decreases s.len() - k,
{
    if k == s.len() {
        assert(s.take(k) =~= s);
    } else {
        lemma_hex_take_succ(s, k);
        lemma_hex_take_le(s, k + 1);
    }
}

/// Parses bytes as Rust's `u32::from_str_radix(_, 16)` would on the
/// corresponding ASCII text.
pub fn parse_hex_u32(s: &[u8]) -> (r: Option<u32>)
    ensures
        r == spec_parse_hex_u32(s@),
{
    let n = s.len();
    let mut i: usize = 0;
    if n > 0 && s[0] == 43 {
        i = 1;
    }
    let ghost t = if s@.len() > 0 && s@[0] == 43 {
        s@.drop_first()
    } else {
        s@
    };
    proof {
        assert(t =~= s@.subrange(i as int, n as int));
    }
    if i == n {
        return None;
    }
    let mut acc: u32 = 0;
    let mut j: usize = i;
    while j < n
        invariant
            i <= j <= n,
            n == s@.len(),
            i <= 1,
            t == (if s@.len() > 0 && s@[0] == 43 {
                s@.drop_first()
            } else {
                s@
            }),
            t =~= s@.subrange(i as int, n as int),
            all_hex_digits(t.take(j - i)),
            acc as nat == hex_seq_val(t.take(j - i)),
        decreases n - j,
    {
        let b = s[j];
        assert(b == t[j - i]);
        let d: u32 = if 48 <= b && b <= 57 {
            (b - 48) as u32
        } else if 97 <= b && b <= 102 {
            (b - 97 + 10) as u32
        } else if 65 <= b && b <= 70 {
            (b - 65 + 10) as u32
        } else {
            assert(!is_hex_digit(t[j - i]));
            return None;
        };
        assert(d as nat == hex_digit_val(t[j - i]));
        proof {
            lemma_hex_take_succ(t, j - i);
        }
        if acc > (u32::MAX - d) / 16 {
            // The value does not fit in a u32: the parse fails whatever
            // the remaining digits are.
            proof {
                if all_hex_digits(t) {
                    assert(acc * 16 + d > u32::MAX) by {
                        assert(acc >= (u32::MAX - d) / 16 + 1);
                        assert(((u32::MAX - d) / 16) * 16 > u32::MAX - d - 16);
                        assert(acc * 16 >= ((u32::MAX - d) / 16 + 1) * 16) by (nonlinear_arith)
                            requires acc >= (u32::MAX - d) / 16 + 1;
                    }
                    lemma_hex_take_le(t, j - i + 1);
                }
            }
            return None;
        }
        proof {
            assert(acc * 16 + d <= u32::MAX) by {
                assert(acc <= (u32::MAX - d) / 16);
                assert(acc * 16 <= ((u32::MAX - d) / 16) * 16) by (nonlinear_arith)
                    requires acc <= (u32::MAX - d) / 16;
                assert(((u32::MAX - d) / 16) * 16 <= u32::MAX - d);
            }
        }
        acc = acc * 16 + d;
        j = j + 1;
    }
    proof {
        assert(t.take(n - i) =~= t);
    }
    Some(acc)
}

// ---------------------------------------------------------------------------
// hexadecimal formatting: the four-digit lowercase length prefix
// ---------------------------------------------------------------------------

/// The lowercase hexadecimal digit byte for one digit value.
pub open spec fn hex_digit_byte(v: nat) -> u8 {
    if v < 10 {
        (48 + v) as u8
    } else {
        (87 + v) as u8
    }
}

/// Four lowercase hexadecimal digit bytes, most significant first.
pub open spec fn hex4_seq(n: nat) -> Seq<u8> {
    seq![
        hex_digit_byte(n / 4096 % 16),
        hex_digit_byte(n / 256 % 16),
        hex_digit_byte(n / 16 % 16),
        hex_digit_byte(n % 16),
    ]
}

proof fn lemma_hex_digit_byte_val(v: nat)
    requires
        v < 16,
    ensures
        is_hex_digit(hex_digit_byte(v)),
        hex_digit_val(hex_digit_byte(v)) == v,
{
}

/// The four-digit prefix is made of hex digits and reads back as the number.
pub proof fn lemma_hex4_val(n: nat)
    requires
        n <= 0xFFFF,
    ensures
        hex4_seq(n).len() == 4,
        all_hex_digits(hex4_seq(n)),
        hex_seq_val(hex4_seq(n)) == n,
{
    let s = hex4_seq(n);
    lemma_hex_digit_byte_val(n / 4096 % 16);
    lemma_hex_digit_byte_val(n / 256 % 16);
    lemma_hex_digit_byte_val(n / 16 % 16);
    lemma_hex_digit_byte_val(n % 16);
    let v0 = hex_digit_val(s[0]);
    let v1 = hex_digit_val(s[1]);
    let v2 = hex_digit_val(s[2]);
    let v3 = hex_digit_val(s[3]);
    assert(hex_seq_val(seq![s[0]]) == v0) by {
        assert(seq![s[0]].drop_last() =~= Seq::<u8>::empty());
        assert(hex_seq_val(Seq::<u8>::empty()) == 0);
        assert(seq![s[0]].last() == s[0]);
    }
    assert(hex_seq_val(seq![s[0], s[1]]) == v0 * 16 + v1) by {
        assert(seq![s[0], s[1]].drop_last() =~= seq![s[0]]);
        assert(seq![s[0], s[1]].last() == s[1]);
    }
    assert(hex_seq_val(seq![s[0], s[1], s[2]]) == (v0 * 16 + v1) * 16 + v2) by {
        assert(seq![s[0], s[1], s[2]].drop_last() =~= seq![s[0], s[1]]);
        assert(seq![s[0], s[1], s[2]].last() == s[2]);
    }
    assert(hex_seq_val(s) == ((v0 * 16 + v1) * 16 + v2) * 16 + v3) by {
        assert(s.drop_last() =~= seq![s[0], s[1], s[2]]);
        assert(s.last() == s[3]);
    }
    let x = n as u16;
    assert((x / 4096 % 16) * 4096 + (x / 256 % 16) * 256 + (x / 16 % 16) * 16 + x % 16 == x)
        by (bit_vector);
}

fn hex_digit_of(d: u16) -> (r: u8)
    requires
        d < 16,
    ensures
        r == hex_digit_byte(d as nat),
{
    if d < 10 {
        48 + (d as u8)
    } else {
        87 + (d as u8)
    }
}

/// Encodes a payload length as the protocol's four lowercase hex digits.
pub fn hex4_bytes(n: u16) -> (r: Vec<u8>)
    ensures
        r@ == hex4_seq(n as nat),
{
    let mut v: Vec<u8> = Vec::new();
    v.push(hex_digit_of(n / 4096 % 16));
    v.push(hex_digit_of(n / 256 % 16));
    v.push(hex_digit_of(n / 16 % 16));
    v.push(hex_digit_of(n % 16));
    proof {
        assert(v@ =~= hex4_seq(n as nat));
    }
    v
}

// ---------------------------------------------------------------------------
// little-endian bytes
// ---------------------------------------------------------------------------

/// Value of little-endian bytes: the first byte is least significant.
pub open spec fn le_val(s: Seq<u8>) -> nat
    decreases s.len(),
{
    if s.len() == 0 {
        0
    } else {
        (s[0] + 256 * le_val(s.drop_first())) as nat
    }
}

pub open spec fn pow256(n: nat) -> nat
    decreases n,
{
    if n == 0 {
        1
    } else {
        256 * pow256((n - 1) as nat)
    }
}

proof fn lemma_le_val_bound(s: Seq<u8>)
    ensures
        le_val(s) < pow256(s.len()),
    decreases s.len(),
{
    if s.len() > 0 {
        lemma_le_val_bound(s.drop_first());
    }
}

proof fn lemma_pow256_vals()
    ensures
        pow256(0) == 1,
        pow256(1) == 0x100,
        pow256(2) == 0x1_0000,
        pow256(3) == 0x100_0000,
        pow256(4) == 0x1_0000_0000,
        pow256(5) == 0x100_0000_0000,
        pow256(6) == 0x1_0000_0000_0000,
        pow256(7) == 0x100_0000_0000_0000,
        pow256(8) == 0x1_0000_0000_0000_0000,
{
    assert(pow256(1) == 256 * pow256(0));
    assert(pow256(2) == 256 * pow256(1));
    assert(pow256(3) == 256 * pow256(2));
    assert(pow256(4) == 256 * pow256(3));
    assert(pow256(5) == 256 * pow256(4));
    assert(pow256(6) == 256 * pow256(5));
    assert(pow256(7) == 256 * pow256(6));
    assert(pow256(8) == 256 * pow256(7));
}

/// Decodes eight little-endian bytes, as the server's transport-id
/// acknowledgement is framed.
pub fn le_u64(b: &[u8]) -> (r: u64)
    requires
        b@.len() == 8,
    ensures
        r as nat == le_val(b@),
{
    let mut acc: u64 = 0;
    let mut i: usize = 8;
    proof {
        assert(b@.skip(8) =~= Seq::<u8>::empty());
    }
    while i > 0
        invariant
            i <= 8,
            b@.len() == 8,
            acc as nat == le_val(b@.skip(i as int)),
            (acc as nat) < pow256((8 - i) as nat),
        decreases i,
    {
        i = i - 1;
        proof {
            lemma_pow256_vals();
            assert(pow256((8 - i) as nat) == 256 * pow256((7 - i) as nat));
            assert(b@.skip(i as int).drop_first() =~= b@.skip(i as int + 1));
        }
        acc = acc * 256 + (b[i] as u64);
    }
    proof {
        assert(b@.skip(0) =~= b@);
    }
    acc
}

/// Decodes four little-endian bytes, as shell packet lengths are framed.
pub fn le_u32(b: &[u8]) -> (r: u32)
    requires
        b@.len() == 4,
    ensures
        r as nat == le_val(b@),
{
    let mut acc: u32 = 0;
    let mut i: usize = 4;
    proof {
        assert(b@.skip(4) =~= Seq::<u8>::empty());
    }
    while i > 0
        invariant
            i <= 4,
            b@.len() == 4,
            acc as nat == le_val(b@.skip(i as int)),
            (acc as nat) < pow256((4 - i) as nat),
        decreases i,
    {
        i = i - 1;
        proof {
            lemma_pow256_vals();
            assert(pow256((4 - i) as nat) == 256 * pow256((3 - i) as nat));
            assert(b@.skip(i as int).drop_first() =~= b@.skip(i as int + 1));
        }
        acc = acc * 256 + (b[i] as u32);
    }
    proof {
        assert(b@.skip(0) =~= b@);
    }
    acc
}

/// Four little-endian bytes of a 32-bit value, least significant first.
pub open spec fn le4_seq(n: nat) -> Seq<u8> {
    seq![
        (n % 256) as u8,
        (n / 256 % 256) as u8,
        (n / 65536 % 256) as u8,
        (n / 16777216 % 256) as u8,
    ]
}

/// Little-endian encoding of a 32-bit value reads back as the value.
pub proof fn lemma_le4_val(n: nat)
    requires
        n <= u32::MAX,
    ensures
        le4_seq(n).len() == 4,
        le_val(le4_seq(n)) == n,
{
    let s = le4_seq(n);
    assert(le_val(seq![s[3]]) == s[3]) by {
        assert(seq![s[3]].drop_first() =~= Seq::<u8>::empty());
        assert(le_val(Seq::<u8>::empty()) == 0);
        assert(seq![s[3]][0] == s[3]);
    }
    assert(le_val(seq![s[2], s[3]]) == s[2] + 256 * le_val(seq![s[3]])) by {
        assert(seq![s[2], s[3]].drop_first() =~= seq![s[3]]);
        assert(seq![s[2], s[3]][0] == s[2]);
    }
    assert(le_val(seq![s[1], s[2], s[3]]) == s[1] + 256 * le_val(seq![s[2], s[3]])) by {
        assert(seq![s[1], s[2], s[3]].drop_first() =~= seq![s[2], s[3]]);
        assert(seq![s[1], s[2], s[3]][0] == s[1]);
    }
    assert(le_val(s) == s[0] + 256 * le_val(seq![s[1], s[2], s[3]])) by {
        assert(s.drop_first() =~= seq![s[1], s[2], s[3]]);
        assert(s[0] == (n % 256) as u8);
    }
    let x = n as u32;
    assert(x % 256 + (x / 256 % 256) * 256 + (x / 65536 % 256) * 65536 + (x / 16777216 % 256)
        * 16777216 == x) by (bit_vector);
}

/// Encodes a 32-bit value as four little-endian bytes.
pub fn le4_bytes(n: u32) -> (r: Vec<u8>)
    ensures
        r@ == le4_seq(n as nat),
{
    let mut v: Vec<u8> = Vec::new();
    v.push((n % 256) as u8);
    v.push((n / 256 % 256) as u8);
    v.push((n / 65536 % 256) as u8);
    v.push((n / 16777216 % 256) as u8);
    proof {
        assert(v@ =~= le4_seq(n as nat));
    }
    v
}

} // verus!

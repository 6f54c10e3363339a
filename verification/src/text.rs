//! Comparing text by what it spells, and building ASCII text byte by byte:
//! decimal numbers, and arbitrary bytes shown printably.

use vstd::prelude::*;

verus! {

/// Whether two strings spell the same characters.
pub(crate) fn same_text(a: &str, b: &str) -> (r: bool)
    ensures
        r == (a@ == b@),
{
    let x: String = a.to_owned();
    let y: String = b.to_owned();
    x == y
}

/// The decimal digits of `n`, most significant first, with no leading zero.
pub open spec fn decimal(n: nat) -> Seq<u8>
    decreases n,
{
    if n < 10 {
        seq![(48 + n) as u8]
    } else {
        decimal(n / 10).push((48 + n % 10) as u8)
    }
}

/// `n` written in decimal, with a `-` before a negative one.
pub open spec fn signed_decimal(n: int) -> Seq<u8> {
    if n < 0 {
        seq![45u8] + decimal((-n) as nat)
    } else {
        decimal(n as nat)
    }
}

/// The hexadecimal digit for `d` below 16.
pub open spec fn hex_digit(d: u8) -> u8 {
    if d < 10 {
        (48 + d) as u8
    } else {
        (87 + d) as u8
    }
}

/// How a byte shows in a message: ASCII as itself, as `Display` writes it;
/// a byte beyond ASCII as `\xNN`.
pub open spec fn shown_byte(b: u8) -> Seq<u8> {
    if b < 128 {
        seq![b]
    } else {
        seq![92u8, 120u8, hex_digit(b / 16), hex_digit(b % 16)]
    }
}

/// How a byte string shows in a message, byte by byte.
pub open spec fn shown(s: Seq<u8>) -> Seq<u8>
    decreases s.len(),
{
    if s.len() == 0 {
        Seq::empty()
    } else {
        shown(s.drop_last()) + shown_byte(s.last())
    }
}

/// How a byte shows inside a quoted token, as `Debug` escapes an ASCII
/// character: `"` and `\` after a backslash, NUL, tab, line feed and
/// carriage return as `\0`, `\t`, `\n` and `\r`, other control characters
/// as `\u{..}` in lowercase hexadecimal, printable ASCII as itself; a byte
/// beyond ASCII as `\xNN`.
pub open spec fn quoted_byte(b: u8) -> Seq<u8> {
    if b == 34 || b == 92 {
        seq![92u8, b]
    } else if b == 0 {
        seq![92u8, 48u8]
    } else if b == 9 {
        seq![92u8, 116u8]
    } else if b == 10 {
        seq![92u8, 110u8]
    } else if b == 13 {
        seq![92u8, 114u8]
    } else if 32 <= b <= 126 {
        seq![b]
    } else if b < 16 {
        seq![92u8, 117u8, 123u8, hex_digit(b), 125u8]
    } else if b < 128 {
        seq![92u8, 117u8, 123u8, hex_digit(b / 16), hex_digit(b % 16), 125u8]
    } else {
        shown_byte(b)
    }
}

/// A byte string between double quotes, as a message quotes a token.
pub open spec fn quoted_inner(s: Seq<u8>) -> Seq<u8>
    decreases s.len(),
{
    if s.len() == 0 {
        Seq::empty()
    } else {
        quoted_inner(s.drop_last()) + quoted_byte(s.last())
    }
}

/// A token as a message quotes it.
pub open spec fn quoted(s: Seq<u8>) -> Seq<u8> {
    seq![34u8] + quoted_inner(s) + seq![34u8]
}

/// The bytes of ASCII text.
pub open spec fn ascii_of(s: Seq<char>) -> Seq<u8> {
    s.map_values(|c: char| c as u8)
}

/// Every byte of `s` is ASCII.
pub open spec fn is_ascii_bytes(s: Seq<u8>) -> bool {
    forall|i: int| 0 <= i < s.len() ==> #[trigger] s[i] < 128
}

/// The characters of ASCII bytes.
pub open spec fn ascii_chars(s: Seq<u8>) -> Seq<char> {
    Seq::new(s.len(), |i: int| s[i] as char)
}

proof fn lemma_decimal_ascii(n: nat)
    ensures
        is_ascii_bytes(decimal(n)),
        decimal(n).len() >= 1,
    decreases n,
{
    if n >= 10 {
        lemma_decimal_ascii(n / 10);
    }
}

proof fn lemma_shown_ascii(s: Seq<u8>)
    ensures
        is_ascii_bytes(shown(s)),
    decreases s.len(),
{
    if s.len() > 0 {
        lemma_shown_ascii(s.drop_last());
    }
}

/// Appends the decimal digits of `n` to `out`.
pub fn push_decimal(out: &mut Vec<u8>, n: u64)
    requires
        is_ascii_bytes(old(out)@),
    ensures
        final(out)@ == old(out)@ + decimal(n as nat),
        is_ascii_bytes(final(out)@),
    decreases n,
{
    proof {
        lemma_decimal_ascii(n as nat);
    }
    if n < 10 {
        out.push((48 + n) as u8);
        proof {
            assert(decimal(n as nat) == seq![(48 + n) as u8]);
        }
    } else {
        push_decimal(out, n / 10);
        out.push((48 + n % 10) as u8);
    }
}

/// Appends the decimal digits of a 128-bit `n` to `out`.
pub fn push_decimal_wide(out: &mut Vec<u8>, n: u128)
    requires
        is_ascii_bytes(old(out)@),
    ensures
        final(out)@ == old(out)@ + decimal(n as nat),
        is_ascii_bytes(final(out)@),
    decreases n,
{
    proof {
        lemma_decimal_ascii(n as nat);
    }
    if n < 10 {
        out.push((48 + n) as u8);
        proof {
            assert(decimal(n as nat) == seq![(48 + n) as u8]);
        }
    } else {
        push_decimal_wide(out, n / 10);
        out.push((48 + n % 10) as u8);
    }
}

/// Appends `n` in decimal, with a `-` before a negative one.
pub fn push_signed(out: &mut Vec<u8>, n: i64)
    requires
        is_ascii_bytes(old(out)@),
    ensures
        final(out)@ == old(out)@ + signed_decimal(n as int),
        is_ascii_bytes(final(out)@),
{
    if n < 0 {
        out.push(45);
        let m: u64 = if n == i64::MIN {
            9223372036854775808
        } else {
            (-n) as u64
        };
        push_decimal(out, m);
    } else {
        push_decimal(out, n as u64);
    }
}

/// Appends `bytes` verbatim.
pub fn push_bytes(out: &mut Vec<u8>, bytes: &[u8])
    ensures
        final(out)@ == old(out)@ + bytes@,
{
    let mut i: usize = 0;
    while i < bytes.len()
        invariant
            i <= bytes@.len(),
            out@ == old(out)@ + bytes@.take(i as int),
        decreases bytes@.len() - i,
    {
        out.push(bytes[i]);
        proof {
            assert(bytes@.take(i + 1) == bytes@.take(i as int).push(bytes@[i as int]));
        }
        i = i + 1;
    }
    proof {
        assert(bytes@.take(bytes@.len() as int) == bytes@);
    }
}

/// Appends `bytes` as they show in a message.
pub fn push_shown(out: &mut Vec<u8>, bytes: &[u8])
    requires
        is_ascii_bytes(old(out)@),
    ensures
        final(out)@ == old(out)@ + shown(bytes@),
        is_ascii_bytes(final(out)@),
{
    let mut i: usize = 0;
    while i < bytes.len()
        invariant
            i <= bytes@.len(),
            out@ == old(out)@ + shown(bytes@.take(i as int)),
            is_ascii_bytes(out@),
        decreases bytes@.len() - i,
    {
        let b = bytes[i];
        proof {
            assert(bytes@.take(i + 1).drop_last() == bytes@.take(i as int));
            assert(bytes@.take(i + 1).last() == b);
        }
        if b < 128 {
            out.push(b);
        } else {
            let hi = b / 16;
            let lo = b % 16;
            out.push(92);
            out.push(120);
            out.push(if hi < 10 { 48 + hi } else { 87 + hi });
            out.push(if lo < 10 { 48 + lo } else { 87 + lo });
        }
        i = i + 1;
    }
    proof {
        assert(bytes@.take(bytes@.len() as int) == bytes@);
    }
}

/// Appends `bytes` between double quotes, as a message quotes a token.
pub fn push_quoted(out: &mut Vec<u8>, bytes: &[u8])
    requires
        is_ascii_bytes(old(out)@),
    ensures
        final(out)@ == old(out)@ + quoted(bytes@),
        is_ascii_bytes(final(out)@),
{
    out.push(34);
    let ghost start = out@;
    let mut i: usize = 0;
    while i < bytes.len()
        invariant
            i <= bytes@.len(),
            out@ == start + quoted_inner(bytes@.take(i as int)),
            is_ascii_bytes(out@),
        decreases bytes@.len() - i,
    {
        let b = bytes[i];
        proof {
            assert(bytes@.take(i + 1).drop_last() == bytes@.take(i as int));
            assert(bytes@.take(i + 1).last() == b);
        }
        if b == 34 || b == 92 {
            out.push(92);
            out.push(b);
        } else if b == 0 {
            out.push(92);
            out.push(48);
        } else if b == 9 {
            out.push(92);
            out.push(116);
        } else if b == 10 {
            out.push(92);
            out.push(110);
        } else if b == 13 {
            out.push(92);
            out.push(114);
        } else if 32 <= b && b <= 126 {
            out.push(b);
        } else if b < 128 {
            out.push(92);
            out.push(117);
            out.push(123);
            let hi = b / 16;
            let lo = b % 16;
            if hi > 0 {
                out.push(if hi < 10 { 48 + hi } else { 87 + hi });
            }
            out.push(if lo < 10 { 48 + lo } else { 87 + lo });
            out.push(125);
        } else {
            let hi = b / 16;
            let lo = b % 16;
            out.push(92);
            out.push(120);
            out.push(if hi < 10 { 48 + hi } else { 87 + hi });
            out.push(if lo < 10 { 48 + lo } else { 87 + lo });
        }
        i = i + 1;
    }
    proof {
        assert(bytes@.take(bytes@.len() as int) == bytes@);
    }
    out.push(34);
}

/// The bytes of an ASCII string literal.
pub(crate) fn literal_bytes(s: &str) -> (r: Vec<u8>)
    requires
        s.is_ascii(),
    ensures
        r@ == ascii_of(s@),
        is_ascii_bytes(r@),
{
    let b = s.as_bytes();
    proof {
        vstd::string::is_ascii_spec_bytes(s);
    }
    let mut out: Vec<u8> = Vec::new();
    push_bytes(&mut out, b);
    proof {
        assert(out@ =~= ascii_of(s@));
    }
    out
}

/// Appends the bytes of an ASCII string literal.
pub(crate) fn push_literal(out: &mut Vec<u8>, s: &str)
    requires
        s.is_ascii(),
        is_ascii_bytes(old(out)@),
    ensures
        final(out)@ == old(out)@ + ascii_of(s@),
        is_ascii_bytes(final(out)@),
{
    let b = literal_bytes(s);
    push_bytes(out, b.as_slice());
}

/// The text of ASCII bytes, through `String::from_utf8`, which keeps valid
/// UTF-8 as it is; every ASCII byte string is valid UTF-8 and spells the
/// characters of its bytes.
#[verifier::external_body]
pub(crate) fn ascii_text(bytes: Vec<u8>) -> (r: String)
    requires
        is_ascii_bytes(bytes@),
    ensures
        r@ == ascii_chars(bytes@),
{
    match String::from_utf8(bytes) {
        Ok(text) => text,
        Err(_) => String::new(),
    }
}

/// The decimal digits of `n` as text.
pub(crate) fn decimal_string(n: u64) -> (r: String)
    ensures
        r@ == ascii_chars(decimal(n as nat)),
{
    let mut bytes: Vec<u8> = Vec::new();
    push_decimal(&mut bytes, n);
    proof {
        assert(bytes@ =~= decimal(n as nat));
    }
    ascii_text(bytes)
}

/// `n` in decimal as text, with a `-` before a negative one.
pub(crate) fn signed_string(n: i64) -> (r: String)
    ensures
        r@ == ascii_chars(signed_decimal(n as int)),
{
    let mut bytes: Vec<u8> = Vec::new();
    push_signed(&mut bytes, n);
    proof {
        assert(bytes@ =~= signed_decimal(n as int));
    }
    ascii_text(bytes)
}

} // verus!

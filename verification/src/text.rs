//! Text for decoded values: numbers in decimal and hexadecimal, byte strings.
use vstd::prelude::*;

verus! {

/// The character of digit `d` (0 to 15) in lowercase hexadecimal; for `d < 10`
/// the decimal digit.
pub open spec fn digit_char(d: int) -> char {
    if d < 10 { (48 + d) as char } else { (87 + d) as char }
}

/// The decimal digits of `n`, without leading zeros.
pub open spec fn decimal(n: nat) -> Seq<char>
    decreases n,
{
    if n < 10 {
        seq![digit_char(n as int)]
    } else {
        decimal(n / 10).push(digit_char((n % 10) as int))
    }
}

/// The lowercase hexadecimal digits of `n`, without leading zeros.
pub open spec fn hexadecimal(n: nat) -> Seq<char>
    decreases n,
{
    if n < 16 {
        seq![digit_char(n as int)]
    } else {
        hexadecimal(n / 16).push(digit_char((n % 16) as int))
    }
}

/// A byte as two lowercase hexadecimal digits.
pub open spec fn hex_pair(b: u8) -> Seq<char> {
    seq![digit_char(b as int / 16), digit_char(b as int % 16)]
}

/// Bytes as hexadecimal pairs, one after the other.
pub open spec fn hex_bytes(s: Seq<u8>) -> Seq<char>
    decreases s.len(),
{
    if s.len() == 0 {
        Seq::empty()
    } else {
        hex_bytes(s.drop_last()) + hex_pair(s.last())
    }
}

/// Bytes as hexadecimal pairs, with `:` before every byte whose index is a
/// positive multiple of `group`.
pub open spec fn hex_grouped(s: Seq<u8>, group: int) -> Seq<char>
    decreases s.len(),
{
    if s.len() == 0 {
        Seq::empty()
    } else {
        let i = s.len() - 1;
        hex_grouped(s.drop_last(), group) + (if i > 0 && i % group == 0 { ":"@ } else { Seq::empty() })
            + hex_pair(s.last())
    }
}

/// `true` or `false`.
pub open spec fn bool_text(b: bool) -> Seq<char> {
    if b { "true"@ } else { "false"@ }
}

/// The parts, with `sep` between each two.
pub open spec fn join(parts: Seq<Seq<char>>, sep: Seq<char>) -> Seq<char>
    decreases parts.len(),
{
    if parts.len() == 0 {
        Seq::empty()
    } else if parts.len() == 1 {
        parts[0]
    } else {
        join(parts.drop_last(), sep) + sep + parts.last()
    }
}

/// Bytes decoded as UTF-8, with each invalid sequence replaced by U+FFFD.
pub uninterp spec fn utf8_lossy(bytes: Seq<u8>) -> Seq<char>;

/// Calls `String::from_utf8_lossy` on the bytes and takes the owned string.
/// The contract claims only that the text is a function of the bytes, named `utf8_lossy`.
#[verifier::external_body]
pub(crate) fn lossy_text(bytes: &[u8]) -> (r: String)
    ensures
        r@ == utf8_lossy(bytes@),
{
    String::from_utf8_lossy(bytes).into_owned()
}

/// The text of one digit (0 to 15).
pub fn digit_text(d: u8) -> (r: &'static str)
    requires
        d < 16,
    ensures
        r@ == seq![digit_char(d as int)],
{
    let digits = "0123456789abcdef";
    proof {
        reveal_strlit("0123456789abcdef");
    }
    assert(digits.is_ascii());
    let r = digits.substring_ascii(d as usize, d as usize + 1);
    assert(r@ =~= seq![digit_char(d as int)]);
    r
}

/// Writes `n` in decimal.
pub fn decimal_text(n: u64) -> (r: String)
    ensures
        r@ == decimal(n as nat),
    decreases n,
{
    if n < 10 {
        let r = String::from_str(digit_text(n as u8));
        r
    } else {
        let mut s = decimal_text(n / 10);
        let ghost before = s@;
        s.append(digit_text((n % 10) as u8));
        assert(s@ =~= before.push(digit_char((n % 10) as int)));
        s
    }
}

/// Writes `n` in lowercase hexadecimal.
pub fn hexadecimal_text(n: u64) -> (r: String)
    ensures
        r@ == hexadecimal(n as nat),
    decreases n,
{
    if n < 16 {
        String::from_str(digit_text(n as u8))
    } else {
        let mut s = hexadecimal_text(n / 16);
        let ghost before = s@;
        s.append(digit_text((n % 16) as u8));
        assert(s@ =~= before.push(digit_char((n % 16) as int)));
        s
    }
}

/// Appends a byte as two hexadecimal digits.
pub fn push_hex_pair(s: &mut String, b: u8)
    ensures
        final(s)@ == old(s)@ + hex_pair(b),
{
    s.append(digit_text(b / 16));
    s.append(digit_text(b % 16));
    assert(s@ =~= old(s)@ + hex_pair(b));
}

/// Writes bytes as hexadecimal pairs.
pub fn hex_text(bytes: &[u8]) -> (r: String)
    ensures
        r@ == hex_bytes(bytes@),
{
    let mut s = String::new();
    let mut i: usize = 0;
    while i < bytes.len()
        invariant
            i <= bytes@.len(),
            s@ == hex_bytes(bytes@.subrange(0, i as int)),
        decreases bytes@.len() - i,
    {
        let ghost prefix = bytes@.subrange(0, i as int + 1);
        assert(prefix.drop_last() =~= bytes@.subrange(0, i as int));
        push_hex_pair(&mut s, bytes[i]);
        i = i + 1;
    }
    assert(bytes@.subrange(0, bytes@.len() as int) =~= bytes@);
    s
}

/// Writes bytes as hexadecimal pairs, with `:` before every byte whose index is
/// a positive multiple of `group`.
pub fn hex_grouped_text(bytes: &[u8], group: usize) -> (r: String)
    requires
        group > 0,
    ensures
        r@ == hex_grouped(bytes@, group as int),
{
    let mut s = String::new();
    let mut i: usize = 0;
    while i < bytes.len()
        invariant
            i <= bytes@.len(),
            group > 0,
            s@ == hex_grouped(bytes@.subrange(0, i as int), group as int),
        decreases bytes@.len() - i,
    {
        let ghost prefix = bytes@.subrange(0, i as int + 1);
        assert(prefix.drop_last() =~= bytes@.subrange(0, i as int));
        let ghost before = s@;
        if i > 0 && i % group == 0 {
            s.append(":");
        }
        push_hex_pair(&mut s, bytes[i]);
        assert(s@ =~= hex_grouped(prefix, group as int));
        i = i + 1;
    }
    assert(bytes@.subrange(0, bytes@.len() as int) =~= bytes@);
    s
}

/// A payload as hexadecimal pairs (the alternate form) or as UTF-8 text.
pub open spec fn payload_text(data: Seq<u8>, alternate: bool) -> Seq<char> {
    if alternate { hex_bytes(data) } else { utf8_lossy(data) }
}

/// Writes a payload as hexadecimal pairs (the alternate form) or as UTF-8 text.
pub fn payload_text_of(data: &[u8], alternate: bool) -> (r: String)
    ensures
        r@ == payload_text(data@, alternate),
{
    if alternate { hex_text(data) } else { lossy_text(data) }
}

/// `"true"` or `"false"`.
pub fn bool_str(b: bool) -> (r: &'static str)
    ensures
        r@ == bool_text(b),
{
    if b { "true" } else { "false" }
}

} // verus!

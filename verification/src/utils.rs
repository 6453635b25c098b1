//! Small helpers shared by the codecs: big-endian integer readers over byte
//! slices and hexadecimal rendering of byte strings.
use vstd::prelude::*;

verus! {

/// The big-endian 16-bit value held at `s[i]` and `s[i + 1]`.
pub open spec fn be16(s: Seq<u8>, i: int) -> int {
    (s[i] as int) * 0x100 + (s[i + 1] as int)
}

/// The big-endian 32-bit value held at `s[i]` through `s[i + 3]`.
pub open spec fn be32(s: Seq<u8>, i: int) -> int {
    (s[i] as int) * 0x1000000 + (s[i + 1] as int) * 0x10000 + (s[i + 2] as int) * 0x100 + (s[i
        + 3] as int)
}

/// Reads the big-endian 16-bit field starting at `data[i]`.
pub fn read_be16(data: &[u8], i: usize) -> (r: u16)
    requires
        i + 2 <= data@.len(),
    ensures
        r == be16(data@, i as int),
{
    (data[i] as u16) * 0x100 + (data[i + 1] as u16)
}

/// Reads the big-endian 32-bit field starting at `data[i]`.
pub fn read_be32(data: &[u8], i: usize) -> (r: u32)
    requires
        i + 4 <= data@.len(),
    ensures
        r == be32(data@, i as int),
{
    (data[i] as u32) * 0x1000000 + (data[i + 1] as u32) * 0x10000 + (data[i + 2] as u32) * 0x100
        + (data[i + 3] as u32)
}

/// The lowercase hexadecimal digit for a nibble value.
pub open spec fn hex_digit(n: int) -> char {
    if n < 10 {
        (48 + n) as char
    } else {
        (87 + n) as char
    }
}

/// The lowercase hexadecimal rendering of a byte string, two digits per byte.
pub open spec fn hex_chars(s: Seq<u8>) -> Seq<char>
    decreases s.len(),
{
    if s.len() == 0 {
        Seq::empty()
    } else {
        seq![hex_digit(s[0] as int / 16), hex_digit(s[0] as int % 16)] + hex_chars(s.drop_first())
    }
}

/// Copies the bytes `data[start..end]` into an owned vector.
pub fn bytes_range(data: &[u8], start: usize, end: usize) -> (r: Vec<u8>)
    requires
        start <= end <= data@.len(),
    ensures
        r@ == data@.subrange(start as int, end as int),
{
    let mut out: Vec<u8> = Vec::new();
    let mut k: usize = start;
    while k < end
        invariant
            start <= k <= end <= data@.len(),
            out@ == data@.subrange(start as int, k as int),
        decreases end - k,
    {
        out.push(data[k]);
        proof {
            assert(data@.subrange(start as int, k + 1 as int) =~= data@.subrange(
                start as int,
                k as int,
            ).push(data@[k as int]));
        }
        k = k + 1;
    }
    out
}

/// Relies on String::push: appends exactly the one character.
#[verifier::external_body]
pub(crate) fn string_push(s: &mut String, c: char)
    ensures
        final (s)@ == old(s)@.push(c),
{
    s.push(c)
}

/// Renders `data` as lowercase hexadecimal, two digits per byte.
pub fn hex(data: &[u8]) -> (r: String)
    ensures
        r@ == hex_chars(data@),
{
    let mut out = String::new();
    let mut k: usize = 0;
    proof {
        lemma_hex_chars_take(data@, 0);
    }
    while k < data.len()
        invariant
            k <= data@.len(),
            out@ == hex_chars(data@.take(k as int)),
        decreases data@.len() - k,
    {
        let b = data[k];
        let hi = b / 16;
        let lo = b % 16;
        let hc: char = if hi < 10 {
            (48 + hi) as char
        } else {
            (87 + hi) as char
        };
        let lc: char = if lo < 10 {
            (48 + lo) as char
        } else {
            (87 + lo) as char
        };
        string_push(&mut out, hc);
        string_push(&mut out, lc);
        proof {
            lemma_hex_chars_take(data@, k + 1);
        }
        k = k + 1;
    }
    proof {
        assert(data@.take(data@.len() as int) == data@);
    }
    out
}

/// Unrolls `hex_chars` over a prefix: the rendering of `take(k)` is the
/// rendering of `take(k - 1)` followed by the two digits of byte `k - 1`.
proof fn lemma_hex_chars_take(s: Seq<u8>, k: int)
    requires
        0 <= k <= s.len(),
    ensures
        k == 0 ==> hex_chars(s.take(k)) == Seq::<char>::empty(),
        k > 0 ==> hex_chars(s.take(k)) == hex_chars(s.take(k - 1)).push(
            hex_digit(s[k - 1] as int / 16),
        ).push(hex_digit(s[k - 1] as int % 16)),
    decreases k,
{
    if k == 0 {
        assert(s.take(0) =~= Seq::<u8>::empty());
    } else {
        lemma_hex_chars_append_byte(s.take(k - 1), s[k - 1]);
        assert(s.take(k - 1).push(s[k - 1]) =~= s.take(k));
    }
}

/// Appending one byte appends its two digits to the rendering.
proof fn lemma_hex_chars_append_byte(s: Seq<u8>, b: u8)
    ensures
        hex_chars(s.push(b)) == hex_chars(s).push(hex_digit(b as int / 16)).push(
            hex_digit(b as int % 16),
        ),
    decreases s.len(),
{
    if s.len() == 0 {
        assert(s.push(b)[0] == b);
        assert(s.push(b).drop_first() =~= Seq::<u8>::empty());
        assert(hex_chars(s.push(b)) == seq![
            hex_digit(s.push(b)[0] as int / 16),
            hex_digit(s.push(b)[0] as int % 16),
        ] + hex_chars(s.push(b).drop_first()));
        assert(hex_chars(s.push(b)) =~= hex_chars(s).push(hex_digit(b as int / 16)).push(
            hex_digit(b as int % 16),
        ));
    } else {
        assert(s.push(b).drop_first() =~= s.drop_first().push(b));
        assert(s.push(b)[0] == s[0]);
        lemma_hex_chars_append_byte(s.drop_first(), b);
        assert(hex_chars(s.push(b)) =~= hex_chars(s).push(hex_digit(b as int / 16)).push(
            hex_digit(b as int % 16),
        ));
    }
}

} // verus!

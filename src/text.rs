use vstd::prelude::*;
use vstd::string::*;

verus! {

/// The bytes of a piece of ASCII text.
pub open spec fn text(s: &str) -> Seq<u8> {
    s.spec_bytes()
}

/// A copy of the bytes of `s`.
pub fn text_bytes(s: &str) -> (r: Vec<u8>)
    ensures
        r@ == text(s),
{
    s.as_bytes_vec()
}

/// Byte-wise equality of two slices.
pub fn bytes_equal(a: &[u8], b: &[u8]) -> (r: bool)
    ensures
        r == (a@ == b@),
{
    if a.len() != b.len() {
        return false;
    }
    let mut i: usize = 0;
    while i < a.len()
        invariant
            a@.len() == b@.len(),
            0 <= i <= a@.len(),
            forall|j: int| 0 <= j < i ==> a@[j] == b@[j],
        decreases a@.len() - i,
    {
        if a[i] != b[i] {
            return false;
        }
        i += 1;
    }
    assert(a@ =~= b@);
    true
}

/// Appends the bytes of `b` to `out`.
pub fn append_bytes(out: &mut Vec<u8>, b: &[u8])
    ensures
        final(out)@ == old(out)@ + b@,
{
    let mut i: usize = 0;
    while i < b.len()
        invariant
            0 <= i <= b@.len(),
            out@ == old(out)@ + b@.subrange(0, i as int),
        decreases b@.len() - i,
    {
        out.push(b[i]);
        i += 1;
        assert(out@ =~= old(out)@ + b@.subrange(0, i as int));
    }
    assert(b@.subrange(0, b@.len() as int) =~= b@);
}

/// Appends the bytes of the text `s` to `out`.
pub fn push_text(out: &mut Vec<u8>, s: &str)
    ensures
        final(out)@ == old(out)@ + text(s),
{
    append_bytes(out, s.as_bytes());
}

/// A copy of `b`.
pub fn copy_bytes(b: &[u8]) -> (r: Vec<u8>)
    ensures
        r@ == b@,
{
    let mut out: Vec<u8> = Vec::new();
    append_bytes(&mut out, b);
    assert(out@ =~= b@);
    out
}

/// A copy of `s[i..j]`.
pub fn subrange_bytes(s: &[u8], i: usize, j: usize) -> (r: Vec<u8>)
    requires
        i <= j <= s@.len(),
    ensures
        r@ == s@.subrange(i as int, j as int),
{
    let mut out: Vec<u8> = Vec::new();
    let mut k: usize = i;
    while k < j
        invariant
            i <= k <= j <= s@.len(),
            out@ == s@.subrange(i as int, k as int),
        decreases j - k,
    {
        out.push(s[k]);
        k += 1;
        assert(out@ =~= s@.subrange(i as int, k as int));
    }
    out
}

} // verus!

verus! {

pub const SPACE: u8 = 32;
pub const TAB: u8 = 9;
pub const NEWLINE: u8 = 10;
pub const CARRIAGE_RETURN: u8 = 13;
pub const QUOTE: u8 = 34;
pub const APOSTROPHE: u8 = 39;
pub const LEFT_PAREN_BYTE: u8 = 40;
pub const RIGHT_PAREN_BYTE: u8 = 41;
pub const STAR_BYTE: u8 = 42;
pub const PLUS_BYTE: u8 = 43;
pub const COMMA_BYTE: u8 = 44;
pub const MINUS_BYTE: u8 = 45;
pub const DOT_BYTE: u8 = 46;
pub const SLASH_BYTE: u8 = 47;
pub const ZERO: u8 = 48;
pub const NINE: u8 = 57;
pub const SEMICOLON_BYTE: u8 = 59;
pub const LESS_BYTE: u8 = 60;
pub const EQUAL_BYTE: u8 = 61;
pub const GREATER_BYTE: u8 = 62;
pub const BANG_BYTE: u8 = 33;
pub const UPPER_A: u8 = 65;
pub const UPPER_Z: u8 = 90;
pub const UNDERSCORE: u8 = 95;
pub const LOWER_A: u8 = 97;
pub const LOWER_Z: u8 = 122;
pub const LEFT_BRACE_BYTE: u8 = 123;
pub const RIGHT_BRACE_BYTE: u8 = 125;

} // verus!

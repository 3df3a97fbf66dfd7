use vstd::prelude::*;
use vstd::utf8::{
    decode_first_codepoint, decode_first_scalar, decode_utf8, is_continuation_byte,
    length_of_first_scalar, pop_first_scalar, valid_first_scalar,
    valid_leading_and_continuation_bytes_first_codepoint, valid_utf8,
};

verus! {

/// Converts bytes to a `String` by calling `String::from_utf8`.
///
/// Trusted: the result is `Some` exactly when the bytes are well-formed UTF-8
/// (vstd's `valid_utf8`), and its characters are then the UTF-8 decoding of
/// those bytes (vstd's `decode_utf8`).
#[verifier::external_body]
pub(crate) fn utf8_to_string(bytes: Vec<u8>) -> (r: Option<String>)
    ensures
        r is Some <==> valid_utf8(bytes@),
        r matches Some(s) ==> s@ == decode_utf8(bytes@),
{
    String::from_utf8(bytes).ok()
}

/// The ASCII upper-case counterpart of a character: `a`..=`z` become
/// `A`..=`Z`, every other character is left alone.
pub open spec fn ascii_upper_char(c: char) -> char {
    if 'a' <= c <= 'z' {
        ((c as u32) - 32) as char
    } else {
        c
    }
}

/// The ASCII upper-case counterpart of a byte.
pub open spec fn ascii_upper_byte(b: u8) -> u8 {
    if 97 <= b <= 122 {
        (b - 32) as u8
    } else {
        b
    }
}

pub open spec fn ascii_upper_bytes(s: Seq<u8>) -> Seq<u8> {
    s.map_values(|b: u8| ascii_upper_byte(b))
}

/// The ASCII upper-case counterpart of a byte string.
pub fn upper_bytes(s: &[u8]) -> (r: Vec<u8>)
    ensures
        r@ == ascii_upper_bytes(s@),
{
    let mut r: Vec<u8> = Vec::new();
    let mut i: usize = 0;
    while i < s.len()
        invariant
            i <= s.len(),
            r@ == ascii_upper_bytes(s@.take(i as int)),
        decreases s.len() - i,
    {
        let b = s[i];
        let u = if 97 <= b && b <= 122 { b - 32 } else { b };
        r.push(u);
        assert(ascii_upper_bytes(s@.take(i + 1)) =~= ascii_upper_bytes(s@.take(i as int)).push(u));
        i = i + 1;
    }
    assert(s@.take(s.len() as int) =~= s@);
    r
}

/// Whether two byte strings are equal.
pub fn bytes_equal(a: &[u8], b: &[u8]) -> (r: bool)
    ensures
        r == (a@ == b@),
{
    if a.len() != b.len() {
        return false;
    }
    let mut i: usize = 0;
    while i < a.len()
        invariant
            a.len() == b.len(),
            i <= a.len(),
            forall|j: int| 0 <= j < i ==> a@[j] == b@[j],
        decreases a.len() - i,
    {
        if a[i] != b[i] {
            return false;
        }
        i = i + 1;
    }
    assert(a@ =~= b@);
    true
}

/// Appends a byte string.
pub fn append_bytes(out: &mut Vec<u8>, bytes: &[u8])
    ensures
        final(out)@ == old(out)@ + bytes@,
{
    let mut i: usize = 0;
    while i < bytes.len()
        invariant
            i <= bytes.len(),
            out@ == old(out)@ + bytes@.take(i as int),
        decreases bytes.len() - i,
    {
        out.push(bytes[i]);
        assert(old(out)@ + bytes@.take(i + 1) =~= old(out)@ + bytes@.take(i as int) + seq![bytes@[i as int]]);
        i = i + 1;
    }
    assert(bytes@.take(bytes.len() as int) =~= bytes@);
}


proof fn lemma_upper_byte(b: u8)
    ensures
        is_continuation_byte(ascii_upper_byte(b)) == is_continuation_byte(b),
        b >= 0x80 ==> ascii_upper_byte(b) == b,
        b < 0x80 ==> ascii_upper_byte(b) < 0x80,
{
}

proof fn lemma_ascii_char(x: u8)
    requires
        x < 0x80,
    ensures
        (x & 0x7f) as u32 == x as u32,
        ascii_upper_char(((x & 0x7f) as u32) as char) == ((ascii_upper_byte(x) & 0x7f) as u32) as char,
{
    assert((x & 0x7f) == x) by (bit_vector)
        requires
            x < 0x80,
    ;
    let u = ascii_upper_byte(x);
    assert(u < 0x80);
    assert((u & 0x7f) == u) by (bit_vector)
        requires
            u < 0x80,
    ;
}

/// Upper-casing the ASCII letters of bytes keeps them well-formed UTF-8 or
/// not, and upper-cases the ASCII letters of the text they encode.
pub proof fn lemma_upper_bytes_utf8(b: Seq<u8>)
    ensures
        valid_utf8(ascii_upper_bytes(b)) == valid_utf8(b),
        valid_utf8(b) ==> decode_utf8(ascii_upper_bytes(b)) == decode_utf8(b).map_values(
            |c: char| ascii_upper_char(c),
        ),
    decreases b.len(),
{
    let u = ascii_upper_bytes(b);
    if b.len() == 0 {
        assert(u.len() == 0);
        assert(decode_utf8(b).map_values(|c: char| ascii_upper_char(c)) =~= Seq::<char>::empty());
        return;
    }
    assert forall|i: int| 0 <= i < b.len() implies #[trigger] is_continuation_byte(u[i])
        == is_continuation_byte(b[i]) by {
        lemma_upper_byte(b[i]);
    }
    lemma_upper_byte(b[0]);
    if b[0] < 0x80 {
        lemma_ascii_char(b[0]);
        assert(valid_first_scalar(b));
        assert(valid_first_scalar(u));
        let rest = b.subrange(1, b.len() as int);
        assert(pop_first_scalar(b) == rest);
        assert(pop_first_scalar(u) =~= ascii_upper_bytes(rest));
        lemma_upper_bytes_utf8(rest);
        if valid_utf8(b) {
            let c = decode_first_scalar(b) as char;
            assert(decode_first_scalar(u) as char == ascii_upper_char(c));
            assert(decode_utf8(b) == seq![c] + decode_utf8(rest));
            assert(decode_utf8(u) == seq![decode_first_scalar(u) as char] + decode_utf8(
                ascii_upper_bytes(rest),
            ));
            assert(decode_utf8(u) =~= decode_utf8(b).map_values(|c: char| ascii_upper_char(c)));
        }
    } else {
        assert(u[0] == b[0]);
        assert(valid_leading_and_continuation_bytes_first_codepoint(u)
            == valid_leading_and_continuation_bytes_first_codepoint(b));
        if valid_leading_and_continuation_bytes_first_codepoint(b) {
            let w = length_of_first_scalar(b);
            assert forall|i: int| 0 <= i < w implies u[i] == b[i] by {
                lemma_upper_byte(b[i]);
            }
            assert(length_of_first_scalar(u) == w);
            assert(decode_first_codepoint(u) == decode_first_codepoint(b));
            assert(valid_first_scalar(u) == valid_first_scalar(b));
            if valid_first_scalar(b) {
                let rest = b.subrange(w, b.len() as int);
                assert(pop_first_scalar(b) == rest);
                assert(pop_first_scalar(u) =~= ascii_upper_bytes(rest));
                lemma_upper_bytes_utf8(rest);
                if valid_utf8(b) {
                    let cp = decode_first_scalar(b);
                    assert(cp >= 0x80);
                    let c = cp as char;
                    vstd::utf8::decode_utf8_first_scalar(b);
                    assert(vstd::utf8::take_first_scalar(b).len() == w);
                    if 'a' <= c <= 'z' {
                        assert(vstd::utf8::encode_scalar(c as u32).len() == 1);
                    }
                    assert(ascii_upper_char(c) == c);
                    assert(decode_utf8(u) =~= decode_utf8(b).map_values(|c: char| ascii_upper_char(c)));
                }
            }
        }
    }
}

} // verus!

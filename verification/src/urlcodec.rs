//! Percent-encoding as the `urlencoding` crate does it, stated over the UTF-8
//! bytes of the text, and the law that decoding undoes encoding.
use vstd::prelude::*;
use vstd::utf8::{decode_utf8, encode_utf8, valid_utf8};

verus! {

/// Bytes that `urlencoding::encode` leaves as they are: ASCII letters and
/// digits, `-`, `.`, `_` and `~`.
pub open spec fn unreserved(b: u8) -> bool {
    (48 <= b && b <= 57) || (65 <= b && b <= 90) || (97 <= b && b <= 122) || b == 45 || b == 46
        || b == 95 || b == 126
}

/// The upper-case hexadecimal digit (as a byte) of a value below 16.
pub open spec fn hex_upper(d: u8) -> u8 {
    if d < 10 {
        (48 + d) as u8
    } else {
        (55 + d) as u8
    }
}

/// The value of a hexadecimal digit byte, either case.
pub open spec fn hex_value(b: u8) -> Option<u8> {
    if 48 <= b && b <= 57 {
        Some((b - 48) as u8)
    } else if 65 <= b && b <= 70 {
        Some((b - 55) as u8)
    } else if 97 <= b && b <= 102 {
        Some((b - 87) as u8)
    } else {
        None
    }
}

/// `urlencoding::encode` on bytes: every byte but the unreserved ones
/// becomes `%` and two upper-case hex digits.
pub open spec fn pct_encode_bytes(b: Seq<u8>) -> Seq<u8>
    decreases b.len(),
{
    if b.len() == 0 {
        Seq::<u8>::empty()
    } else if unreserved(b[0]) {
        seq![b[0]] + pct_encode_bytes(b.drop_first())
    } else {
        seq![37u8, hex_upper(b[0] / 16), hex_upper(b[0] % 16)] + pct_encode_bytes(b.drop_first())
    }
}

/// `urlencoding::decode_binary`: `%` with two hex digits becomes that byte;
/// a `%` not followed by two hex digits is kept as it is.
pub open spec fn pct_decode_bytes(b: Seq<u8>) -> Seq<u8>
    decreases b.len(),
{
    if b.len() == 0 {
        Seq::<u8>::empty()
    } else if b[0] != 37 {
        seq![b[0]] + pct_decode_bytes(b.drop_first())
    } else if b.len() < 3 {
        b
    } else if hex_value(b[1]) is Some && hex_value(b[2]) is Some {
        seq![(hex_value(b[1]).unwrap() * 16 + hex_value(b[2]).unwrap()) as u8] + pct_decode_bytes(
            b.skip(3),
        )
    } else if hex_value(b[1]) is Some {
        seq![37u8, b[1]] + pct_decode_bytes(b.skip(2))
    } else {
        seq![37u8] + pct_decode_bytes(b.skip(1))
    }
}

/// The text `urlencoding::encode` produces.
pub open spec fn url_encode_spec(t: Seq<char>) -> Seq<char> {
    decode_utf8(pct_encode_bytes(encode_utf8(t)))
}

/// What `urlencoding::decode` gives back: the decoded bytes as text when
/// they are valid UTF-8.
pub open spec fn url_decode_spec(t: Seq<char>) -> Option<Seq<char>> {
    let b = pct_decode_bytes(encode_utf8(t));
    if valid_utf8(b) {
        Some(decode_utf8(b))
    } else {
        None
    }
}

/// `urlencoding::encode`: percent-encodes the UTF-8 bytes of `s`, keeping
/// ASCII letters, digits and `-._~`. The contract states the bytes of the
/// result.
#[verifier::external_body]
pub fn url_encode(s: &str) -> (r: String)
    ensures
        encode_utf8(r@) == pct_encode_bytes(encode_utf8(s@)),
{
    urlencoding::encode(s).into_owned()
}

/// The text of the `FromUtf8Error` that `urlencoding::decode` reports for
/// an input whose decoded bytes are not valid UTF-8.
pub uninterp spec fn url_decode_error_text(s: Seq<char>) -> Seq<char>;

/// What `urlencoding::decode` returns, with its error as text.
pub open spec fn url_decode_result(t: Seq<char>) -> Result<Seq<char>, Seq<char>> {
    match url_decode_spec(t) {
        Some(d) => Ok(d),
        None => Err(url_decode_error_text(t)),
    }
}

/// `urlencoding::decode`: decodes `%XX` escapes of the UTF-8 bytes of `s`
/// and gives the text back when the bytes are valid UTF-8; otherwise the
/// text of its `FromUtf8Error`, which the contract only names.
#[verifier::external_body]
pub fn url_decode(s: &str) -> (r: Result<String, String>)
    ensures
        r is Ok <==> valid_utf8(pct_decode_bytes(encode_utf8(s@))),
        r matches Ok(d) ==> encode_utf8(d@) == pct_decode_bytes(encode_utf8(s@)),
        r matches Err(e) ==> e@ == url_decode_error_text(s@),
{
    match urlencoding::decode(s) {
        Ok(d) => Ok(d.into_owned()),
        Err(e) => Err(e.to_string()),
    }
}

/// `urlencoding::decode`, with the text of the result as its contract states.
pub fn url_decode_text(s: &str) -> (r: Result<String, String>)
    ensures
        match url_decode_result(s@) {
            Ok(d) => r matches Ok(x) && x@ == d,
            Err(e) => r matches Err(x) && x@ == e,
        },
{
    let r = url_decode(s);
    proof {
        broadcast use vstd::utf8::encode_utf8_decode_utf8;

        if r is Ok {
            assert(decode_utf8(encode_utf8(r->Ok_0@)) == r->Ok_0@);
        }
    }
    r
}

/// `urlencoding::encode`, with the text of the result as its contract states.
pub fn url_encode_text(s: &str) -> (r: String)
    ensures
        r@ == url_encode_spec(s@),
{
    let r = url_encode(s);
    proof {
        broadcast use vstd::utf8::encode_utf8_decode_utf8;

        assert(decode_utf8(encode_utf8(r@)) == r@);
    }
    r
}

proof fn lemma_hex_roundtrip(d: u8)
    requires
        d < 16,
    ensures
        hex_value(hex_upper(d)) == Some(d),
        hex_upper(d) != 37,
{
}

/// Decoding the bytes that encoding produced gives the original bytes.
pub proof fn lemma_pct_roundtrip_bytes(b: Seq<u8>)
    ensures
        pct_decode_bytes(pct_encode_bytes(b)) == b,
    decreases b.len(),
{
    if b.len() > 0 {
        lemma_pct_roundtrip_bytes(b.drop_first());
        let e = pct_encode_bytes(b);
        let rest = pct_encode_bytes(b.drop_first());
        if unreserved(b[0]) {
            assert(e.drop_first() =~= rest);
            assert(pct_decode_bytes(e) =~= seq![b[0]] + pct_decode_bytes(rest));
        } else {
            lemma_hex_roundtrip(b[0] / 16);
            lemma_hex_roundtrip(b[0] % 16);
            assert(e.skip(3) =~= rest);
            assert(e[1] == hex_upper(b[0] / 16));
            assert(e[2] == hex_upper(b[0] % 16));
            assert((b[0] / 16) * 16 + b[0] % 16 == b[0]);
            assert(pct_decode_bytes(e) =~= seq![b[0]] + pct_decode_bytes(rest));
        }
        assert(seq![b[0]] + b.drop_first() =~= b);
    }
}

/// Every byte of an encoding is ASCII and valid UTF-8 as a whole.
pub proof fn lemma_pct_encode_ascii(b: Seq<u8>)
    ensures
        forall|i: int|
            0 <= i < pct_encode_bytes(b).len() ==> #[trigger] pct_encode_bytes(b)[i] < 128,
    decreases b.len(),
{
    if b.len() > 0 {
        lemma_pct_encode_ascii(b.drop_first());
        if !unreserved(b[0]) {
            lemma_hex_roundtrip(b[0] / 16);
            lemma_hex_roundtrip(b[0] % 16);
        }
        let e = pct_encode_bytes(b);
        let rest = pct_encode_bytes(b.drop_first());
        assert forall|i: int| 0 <= i < e.len() implies #[trigger] e[i] < 128 by {
            if unreserved(b[0]) {
                if i > 0 {
                    assert(e[i] == rest[i - 1]);
                }
            } else {
                if i > 2 {
                    assert(e[i] == rest[i - 3]);
                }
            }
        }
    }
}

/// Decoding the text that encoding produced gives the original text.
pub proof fn lemma_url_roundtrip(t: Seq<char>, e: Seq<char>)
    requires
        encode_utf8(e) == pct_encode_bytes(encode_utf8(t)),
    ensures
        url_decode_spec(e) == Some(t),
        url_decode_result(e) == Ok::<Seq<char>, Seq<char>>(t),
        e == url_encode_spec(t),
{
    broadcast use vstd::utf8::encode_utf8_valid_utf8, vstd::utf8::encode_utf8_decode_utf8;

    lemma_pct_roundtrip_bytes(encode_utf8(t));
    assert(decode_utf8(encode_utf8(e)) == e);
}

/// Bytes below 128 are valid UTF-8.
pub proof fn lemma_ascii_valid_utf8(b: Seq<u8>)
    requires
        forall|i: int| 0 <= i < b.len() ==> #[trigger] b[i] < 128,
    ensures
        valid_utf8(b),
    decreases b.len(),
{
    if b.len() > 0 {
        let x = b[0];
        assert((x & 0x7Fu8) <= 0x7Fu8) by (bit_vector);
        assert(b.subrange(1, b.len() as int) =~= b.drop_first());
        lemma_ascii_valid_utf8(b.drop_first());
    }
}

/// The text of an encoding has exactly the encoded bytes.
pub proof fn lemma_url_encode_bytes(t: Seq<char>)
    ensures
        encode_utf8(url_encode_spec(t)) == pct_encode_bytes(encode_utf8(t)),
        !url_encode_spec(t).contains(' '),
{
    broadcast use vstd::utf8::decode_utf8_encode_utf8;

    let b = pct_encode_bytes(encode_utf8(t));
    lemma_pct_encode_ascii(encode_utf8(t));
    lemma_ascii_valid_utf8(b);
    let e = url_encode_spec(t);
    assert(encode_utf8(decode_utf8(b)) == b);
    lemma_no_space_ascii(e);
}

/// Text whose UTF-8 bytes are percent-encoded output holds no space.
proof fn lemma_no_space_ascii(e: Seq<char>)
    requires
        exists|b: Seq<u8>| encode_utf8(e) == pct_encode_bytes(b),
    ensures
        !e.contains(' '),
{
    let b = choose|b: Seq<u8>| encode_utf8(e) == pct_encode_bytes(b);
    lemma_pct_encode_no_space(b);
    lemma_pct_encode_ascii(b);
    if e.contains(' ') {
        let i = choose|i: int| 0 <= i < e.len() && e[i] == ' ';
        lemma_ascii_prefix_bytes(e, i);
    }
}

/// Percent-encoding never produces a space byte.
proof fn lemma_pct_encode_no_space(b: Seq<u8>)
    ensures
        forall|i: int|
            0 <= i < pct_encode_bytes(b).len() ==> #[trigger] pct_encode_bytes(b)[i] != 32,
    decreases b.len(),
{
    if b.len() > 0 {
        lemma_pct_encode_no_space(b.drop_first());
        if !unreserved(b[0]) {
            lemma_hex_roundtrip(b[0] / 16);
            lemma_hex_roundtrip(b[0] % 16);
        }
        let e = pct_encode_bytes(b);
        let rest = pct_encode_bytes(b.drop_first());
        assert forall|i: int| 0 <= i < e.len() implies #[trigger] e[i] != 32 by {
            if unreserved(b[0]) {
                if i > 0 {
                    assert(e[i] == rest[i - 1]);
                }
            } else {
                if i > 2 {
                    assert(e[i] == rest[i - 3]);
                }
            }
        }
    }
}

/// When all bytes of `encode_utf8(e)` are below 128 and none is a space,
/// `e` has no space at position `i`.
proof fn lemma_ascii_prefix_bytes(e: Seq<char>, i: int)
    requires
        0 <= i < e.len(),
        forall|j: int| 0 <= j < encode_utf8(e).len() ==> #[trigger] encode_utf8(e)[j] < 128,
        forall|j: int| 0 <= j < encode_utf8(e).len() ==> #[trigger] encode_utf8(e)[j] != 32,
    ensures
        e[i] != ' ',
    decreases i,
{
    reveal_strlit(" ");
    let first = vstd::utf8::encode_scalar(e[0] as u32);
    assert(encode_utf8(e) == first + encode_utf8(e.drop_first()));
    if i == 0 {
        if e[0] == ' ' {
            assert((32u32) as u8 == 32u8);
            assert(first == seq![32u8]) by {
                assert(vstd::utf8::has_width_1_encoding(32u32));
                assert(vstd::utf8::leading_byte_width_1(32u32) == 32u8) by (bit_vector);
            }
            assert(encode_utf8(e)[0] == 32);
        }
    } else {
        let rest = encode_utf8(e.drop_first());
        assert forall|j: int| 0 <= j < rest.len() implies #[trigger] rest[j] < 128 && rest[j] != 32 by {
            assert(rest[j] == encode_utf8(e)[j + first.len()]);
        }
        lemma_ascii_prefix_bytes(e.drop_first(), i - 1);
    }
}

} // verus!

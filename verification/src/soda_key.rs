//! The content key of a Soda Music track: read from the `PlayAuth` value
//! (base64, an obfuscated inner layer, a base-36 skip count) and decoded
//! from hexadecimal.
use vstd::prelude::*;
use vstd::string::StringSliceAdditionalSpecFns;
use vstd::utf8::{decode_utf8, encode_utf8, is_char_boundary, valid_utf8};
use crate::error::BotError;
use crate::hls::{base64_decode, base64_decoded};
use crate::text::{concat, trim_spec, trim_str};

verus! {

/// The number of one bits of `n`.
pub open spec fn popcount(n: nat) -> nat
    decreases n,
{
    if n == 0 {
        0
    } else {
        (n % 2) + popcount(n / 2)
    }
}

/// `2^k`.
pub open spec fn two_pow(k: nat) -> nat
    decreases k,
{
    if k == 0 {
        1
    } else {
        2 * two_pow((k - 1) as nat)
    }
}

proof fn lemma_popcount_bound(n: nat, k: nat)
    requires
        n < two_pow(k),
    ensures
        popcount(n) <= k,
    decreases k,
{
    if n > 0 {
        assert(k > 0);
        lemma_popcount_bound(n / 2, (k - 1) as nat);
    }
}

/// The number of one bits of the low 32 bits of `n`.
pub fn bitcount_soda(n: usize) -> (r: u32)
    ensures
        r == popcount(((n as u32) as nat)),
        r <= 32,
{
    let mut x: u32 = #[verifier::truncate] (n as u32);
    let ghost x0 = x;
    proof {
        reveal_with_fuel(two_pow, 33);
        assert(two_pow(32) == 0x1_0000_0000);
        lemma_popcount_bound(x0 as nat, 32);
    }
    let mut c: u32 = 0;
    while x > 0
        invariant
            c + popcount(x as nat) == popcount(x0 as nat),
            popcount(x0 as nat) <= 32,
            x0 == (n as u32),
        decreases x,
    {
        assert(x & 1 == x % 2) by (bit_vector);
        assert(x >> 1 == x / 2) by (bit_vector);
        c = c + (x & 1);
        x = x >> 1;
    }
    c
}

/// A copy of `v[a..b]`.
fn copy_range(v: &[u8], a: usize, b: usize) -> (r: Vec<u8>)
    requires
        a <= b <= v@.len(),
    ensures
        r@ == v@.subrange(a as int, b as int),
{
    let mut r: Vec<u8> = Vec::new();
    let mut i = a;
    while i < b
        invariant
            a <= i <= b,
            b <= v@.len(),
            r@ == v@.subrange(a as int, i as int),
        decreases b - i,
    {
        r.push(v[i]);
        i = i + 1;
        proof {
            assert(r@ =~= v@.subrange(a as int, i as int));
        }
    }
    r
}

/// The value of a base-36 digit (`0–9`, `a–z`); 255 for any other byte.
pub open spec fn base36_spec(b: u8) -> usize {
    if 48 <= b <= 57 {
        (b - 48) as usize
    } else if 97 <= b <= 122 {
        (b - 97 + 10) as usize
    } else {
        255
    }
}

pub fn decode_soda_base36(byte: u8) -> (r: usize)
    ensures
        r == base36_spec(byte),
{
    if 48 <= byte && byte <= 57 {
        (byte - 48) as usize
    } else if 97 <= byte && byte <= 122 {
        (byte - 97 + 10) as usize
    } else {
        255
    }
}

/// One byte of the inner layer: the byte xor-ed with the byte two places
/// before it (`0xFA`, `0x55` before the first two), less its position's
/// bit count and 21, brought into `0..255` by adding 255.
pub open spec fn inner_byte(bytes: Seq<u8>, i: int) -> u8 {
    let prev: u8 = if i == 0 {
        0xFAu8
    } else if i == 1 {
        0x55u8
    } else {
        bytes[i - 2]
    };
    let v = (bytes[i] ^ prev) as int - popcount(((i as usize) as u32) as nat) - 21;
    if v >= 0 {
        v as u8
    } else {
        (v % 255) as u8
    }
}

pub open spec fn inner_spec(bytes: Seq<u8>) -> Seq<u8> {
    Seq::new(bytes.len(), |i: int| inner_byte(bytes, i))
}

/// The inner layer of a `PlayAuth` value undone.
pub fn decrypt_soda_inner(bytes: &[u8]) -> (r: Vec<u8>)
    ensures
        r@ == inner_spec(bytes@),
{
    let mut out: Vec<u8> = Vec::new();
    let mut i: usize = 0;
    while i < bytes.len()
        invariant
            i <= bytes.len(),
            out@ == inner_spec(bytes@).take(i as int),
        decreases bytes.len() - i,
    {
        let prev: u8 = if i == 0 {
            0xFA
        } else if i == 1 {
            0x55
        } else {
            bytes[i - 2]
        };
        let bits = bitcount_soda(i);
        let x: u8 = bytes[i] ^ prev;
        let mut value: i32 = x as i32 - bits as i32 - 21;
        let ghost v0 = value as int;
        while value < 0
            invariant
                value < 255,
                value >= v0,
                v0 >= -300,
                (value - v0) % 255 == 0,
            decreases 255 - value,
        {
            value = value + 255;
        }
        proof {
            let vv = value as int;
            assert(0 <= vv < 255);
            if v0 < 0 {
                assert(vv == v0 % 255) by (nonlinear_arith)
                    requires
                        0 <= vv < 255,
                        (vv - v0) % 255 == 0,
                ;
            } else {
                assert(vv == v0);
            }
        }
        out.push(value as u8);
        proof {
            assert(out@ =~= inner_spec(bytes@).take(i + 1));
        }
        i = i + 1;
    }
    proof {
        assert(inner_spec(bytes@).take(bytes.len() as int) =~= inner_spec(bytes@));
    }
    out
}

/// What `String::from_utf8` gives for bytes that are not UTF-8: the text
/// of its error.
pub uninterp spec fn utf8_error_text(bytes: Seq<u8>) -> Seq<char>;

/// `String::from_utf8`: the text the bytes encode when they are UTF-8,
/// else the text of the error, which depends on the bytes alone.
#[verifier::external_body]
pub(crate) fn utf8_string(bytes: Vec<u8>) -> (r: Result<String, String>)
    ensures
        match r {
            Ok(s) => valid_utf8(bytes@) && s@ == decode_utf8(bytes@),
            Err(e) => !valid_utf8(bytes@) && e@ == utf8_error_text(bytes@),
        },
{
    String::from_utf8(bytes).map_err(|e| e.to_string())
}

/// The key text of a `PlayAuth` value, or the reason it has none.
pub open spec fn soda_key_spec(play_auth: Seq<char>) -> Result<Seq<char>, Seq<char>> {
    match base64_decoded(trim_spec(play_auth)) {
        Err(e) => Err("汽水音乐 PlayAuth 解码失败："@ + e),
        Ok(data) => if data.len() < 3 {
            Err("汽水音乐 PlayAuth 数据过短"@)
        } else {
            let x = (data[0] ^ data[1] ^ data[2]) as int;
            let padding = if x >= 48 {
                x - 48
            } else {
                0
            };
            if data.len() < padding + 2 {
                Err("汽水音乐 PlayAuth padding 无效"@)
            } else {
                let decoded = inner_spec(data.subrange(1, data.len() - padding));
                if decoded.len() == 0 {
                    Err("汽水音乐 PlayAuth 内层解密失败"@)
                } else {
                    let skip = base36_spec(decoded[0]) as int;
                    let room = data.len() - padding - 2;
                    let end = 1 + if room >= skip {
                        room - skip
                    } else {
                        0
                    };
                    if end > decoded.len() || end < 1 {
                        Err("汽水音乐 PlayAuth key 范围无效"@)
                    } else {
                        let key = decoded.subrange(1, end);
                        if valid_utf8(key) {
                            Ok(decode_utf8(key))
                        } else {
                            Err("汽水音乐 PlayAuth key 非 UTF-8："@ + utf8_error_text(key))
                        }
                    }
                }
            }
        }
    }
}

fn custom(m: String) -> (r: BotError)
    ensures
        r == BotError::Custom(m),
{
    BotError::Custom(m)
}

pub fn extract_soda_key(play_auth: &str) -> (r: Result<String, BotError>)
    ensures
        match soda_key_spec(play_auth@) {
            Ok(k) => r matches Ok(s) && s@ == k,
            Err(m) => r matches Err(BotError::Custom(e)) && e@ == m,
        },
{
    let trimmed = trim_str(play_auth);
    let data = match base64_decode(trimmed.as_str()) {
        Ok(d) => d,
        Err(e) => {
            return Err(custom(concat("汽水音乐 PlayAuth 解码失败：", e.as_str())));
        },
    };
    if data.len() < 3 {
        return Err(custom(String::from_str("汽水音乐 PlayAuth 数据过短")));
    }
    let x: u8 = data[0] ^ data[1] ^ data[2];
    let padding_len: usize = if x >= 48 {
        (x - 48) as usize
    } else {
        0
    };
    if data.len() < padding_len + 2 {
        return Err(custom(String::from_str("汽水音乐 PlayAuth padding 无效")));
    }
    let inner = copy_range(&data, 1, data.len() - padding_len);
    let decoded = decrypt_soda_inner(&inner);
    if decoded.len() == 0 {
        return Err(custom(String::from_str("汽水音乐 PlayAuth 内层解密失败")));
    }
    let skip = decode_soda_base36(decoded[0]);
    let room = data.len() - padding_len - 2;
    let end = 1 + if room >= skip {
        room - skip
    } else {
        0
    };
    if end > decoded.len() || end < 1 {
        return Err(custom(String::from_str("汽水音乐 PlayAuth key 范围无效")));
    }
    let key = copy_range(&decoded, 1, end);
    match utf8_string(key) {
        Ok(s) => Ok(s),
        Err(e) => Err(custom(concat("汽水音乐 PlayAuth key 非 UTF-8：", e.as_str()))),
    }
}


/// The value of a hexadecimal digit byte.
pub open spec fn hex_val(b: u8) -> Option<u8> {
    if 48 <= b <= 57 {
        Some((b - 48) as u8)
    } else if 97 <= b <= 102 {
        Some((b - 87) as u8)
    } else if 65 <= b <= 70 {
        Some((b - 55) as u8)
    } else {
        None
    }
}

/// What `u8::from_str_radix(_, 16)` reads from two bytes: an optional `+`
/// then hexadecimal digits.
pub open spec fn hex_pair(b0: u8, b1: u8) -> Option<u8> {
    if b0 == 43 {
        hex_val(b1)
    } else {
        match (hex_val(b0), hex_val(b1)) {
            (Some(h), Some(l)) => Some((h * 16 + l) as u8),
            _ => None,
        }
    }
}

/// The bytes of a hexadecimal text, two digits a byte, when every pair
/// reads.
pub open spec fn hex_bytes(b: Seq<u8>, k: int) -> Option<Seq<u8>>
    decreases b.len() - k,
{
    if k < 0 || k + 2 > b.len() {
        Some(Seq::empty())
    } else {
        match (hex_pair(b[k], b[k + 1]), hex_bytes(b, k + 2)) {
            (Some(v), Some(rest)) => Some(seq![v] + rest),
            _ => None,
        }
    }
}

/// Every two-byte piece of the text starts and ends at a character, so it
/// can be cut there.
pub open spec fn pairs_cut_at_chars(b: Seq<u8>) -> bool {
    forall|i: int| 0 <= i < b.len() && i % 2 == 0 ==> #[trigger] is_char_boundary(b, i) && is_char_boundary(b, i + 2)
}

/// The bytes a hexadecimal text gives (trimmed first), or why it gives
/// none: an odd length, or a pair that is not a number.
pub open spec fn hex_decode_spec(value: Seq<char>) -> Result<Seq<u8>, Seq<char>> {
    let b = encode_utf8(trim_spec(value));
    if b.len() % 2 != 0 {
        Err("hex 长度错误"@)
    } else {
        match hex_bytes(b, 0) {
            Some(v) => Ok(v),
            None => Err("hex 解码失败：invalid digit found in string"@),
        }
    }
}

fn hex_digit(b: u8) -> (r: Option<u8>)
    ensures
        r == hex_val(b),
{
    if 48 <= b && b <= 57 {
        Some(b - 48)
    } else if 97 <= b && b <= 102 {
        Some(b - 87)
    } else if 65 <= b && b <= 70 {
        Some(b - 55)
    } else {
        None
    }
}

/// Whether the trimmed text can be cut into two-byte pieces at character
/// boundaries (or has an odd length, which is refused before cutting).
pub fn hex_pairs_cuttable(value: &str) -> (r: bool)
    ensures
        r == (encode_utf8(trim_spec(value@)).len() % 2 != 0 || pairs_cut_at_chars(encode_utf8(trim_spec(value@)))),
{
    let t = trim_str(value);
    let ts = t.as_str();
    let n = ts.as_bytes().len();
    if n % 2 != 0 {
        return true;
    }
    let mut k: usize = 0;
    while 2 * k < n
        invariant
            n == encode_utf8(trim_spec(value@)).len(),
            ts@ == trim_spec(value@),
            n % 2 == 0,
            2 * k <= n,
            forall|i: int| 0 <= i < 2 * k && i % 2 == 0 ==> #[trigger] is_char_boundary(encode_utf8(trim_spec(value@)), i)
                && is_char_boundary(encode_utf8(trim_spec(value@)), i + 2),
        decreases n - 2 * k,
    {
        if !ts.is_char_boundary(2 * k) || !ts.is_char_boundary(2 * k + 2) {
            proof {
                let i = 2 * k as int;
                assert(!(is_char_boundary(encode_utf8(trim_spec(value@)), i) && is_char_boundary(encode_utf8(trim_spec(value@)), i + 2)));
            }
            return false;
        }
        k = k + 1;
    }
    true
}

/// A hexadecimal text's bytes; its pairs must be cut at characters, as
/// slicing the text demands.
pub fn hex_decode(value: &str) -> (r: Result<Vec<u8>, BotError>)
    requires
        encode_utf8(trim_spec(value@)).len() % 2 != 0 || pairs_cut_at_chars(encode_utf8(trim_spec(value@))),
    ensures
        match hex_decode_spec(value@) {
            Ok(v) => r matches Ok(x) && x@ == v,
            Err(m) => r matches Err(BotError::Custom(e)) && e@ == m,
        },
{
    let t = trim_str(value);
    let b = t.as_str().as_bytes();
    if b.len() % 2 != 0 {
        return Err(custom(String::from_str("hex 长度错误")));
    }
    let ghost bs = b@;
    let mut out: Vec<u8> = Vec::new();
    let mut k: usize = 0;
    while k < b.len()
        invariant
            bs == b@,
            bs == encode_utf8(trim_spec(value@)),
            b.len() % 2 == 0,
            k % 2 == 0,
            k <= b.len(),
            hex_bytes(bs, 0) == match hex_bytes(bs, k as int) {
                Some(rest) => Some(out@ + rest),
                None => None,
            },
        decreases b.len() - k,
    {
        let v = match (b[k] == 43, hex_digit(b[k]), hex_digit(b[k + 1])) {
            (true, _, Some(l)) => Some(l),
            (false, Some(h), Some(l)) => Some(h * 16 + l),
            _ => None,
        };
        proof {
            assert(v == hex_pair(bs[k as int], bs[k + 1]));
        }
        match v {
            Some(x) => {
                proof {
                    match hex_bytes(bs, k + 2) {
                        Some(rest) => {
                            assert(out@.push(x) + rest =~= out@ + (seq![x] + rest));
                        },
                        None => {},
                    }
                }
                out.push(x);
            },
            None => {
                return Err(custom(String::from_str("hex 解码失败：invalid digit found in string")));
            },
        }
        k = k + 2;
    }
    proof {
        assert(out@ + Seq::<u8>::empty() =~= out@);
    }
    Ok(out)
}

} // verus!

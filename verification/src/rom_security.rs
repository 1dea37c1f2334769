//! The security context of an update-server request: the account's keys
//! when its session is usable, else the public ones.
use vstd::prelude::*;
use base64::Engine;
use crate::hls::{base64_decode, base64_decoded};
use crate::rom_core::LoginData;
use crate::rom_map::{opt_seq, or_empty, owned_or_empty};
use crate::text::{chars_of, is_ascii_whitespace, is_ascii_ws, string_of};

verus! {

/// What the base64 engine without padding (alphabet `A–Z a–z 0–9 + /`)
/// decodes the bytes of a text to, or the text of its error.
pub uninterp spec fn base64_nopad_decoded(text: Seq<char>) -> Result<Seq<u8>, Seq<char>>;

/// What the URL-safe base64 engine (alphabet `A–Z a–z 0–9 - _`, padding
/// required) decodes the bytes of a text to, when it decodes them.
pub uninterp spec fn url_safe_decoded(text: Seq<char>) -> Option<Seq<u8>>;

/// What the URL-safe base64 engine without padding decodes the bytes of a
/// text to, when it decodes them.
pub uninterp spec fn url_safe_nopad_decoded(text: Seq<char>) -> Option<Seq<u8>>;

/// `base64::engine::general_purpose::STANDARD_NO_PAD.decode` on the text's
/// bytes; an error is given by its message. The result depends on the text
/// alone.
#[verifier::external_body]
pub(crate) fn base64_nopad_decode(text: &str) -> (r: Result<Vec<u8>, String>)
    ensures
        match r {
            Ok(v) => base64_nopad_decoded(text@) == Ok::<Seq<u8>, Seq<char>>(v@),
            Err(e) => base64_nopad_decoded(text@) == Err::<Seq<u8>, Seq<char>>(e@),
        },
{
    match base64::engine::general_purpose::STANDARD_NO_PAD.decode(text.as_bytes()) {
        Ok(v) => Ok(v),
        Err(e) => Err(e.to_string()),
    }
}

/// `base64::engine::general_purpose::URL_SAFE.decode` on the text's bytes,
/// an error read as nothing. The result depends on the text alone.
#[verifier::external_body]
fn url_safe_decode(text: &str) -> (r: Option<Vec<u8>>)
    ensures
        match r {
            Some(v) => url_safe_decoded(text@) == Some(v@),
            None => url_safe_decoded(text@) is None,
        },
{
    base64::engine::general_purpose::URL_SAFE.decode(text.as_bytes()).ok()
}

/// `base64::engine::general_purpose::URL_SAFE_NO_PAD.decode` on the text's
/// bytes, an error read as nothing. The result depends on the text alone.
#[verifier::external_body]
fn url_safe_nopad_decode(text: &str) -> (r: Option<Vec<u8>>)
    ensures
        match r {
            Some(v) => url_safe_nopad_decoded(text@) == Some(v@),
            None => url_safe_nopad_decoded(text@) is None,
        },
{
    base64::engine::general_purpose::URL_SAFE_NO_PAD.decode(text.as_bytes()).ok()
}

/// The public key of the update server, `miuiotavalided11`.
pub open spec fn default_key_spec() -> Seq<u8> {
    seq![109u8, 105, 117, 105, 111, 116, 97, 118, 97, 108, 105, 100, 101, 100, 49, 49]
}

pub fn default_security_key() -> (r: Vec<u8>)
    ensures
        r@ == default_key_spec(),
{
    let r = vec![109u8, 105, 117, 105, 111, 116, 97, 118, 97, 108, 105, 100, 101, 100, 49, 49];
    proof {
        assert(r@ =~= default_key_spec());
    }
    r
}

/// The text without its ASCII whitespace.
pub open spec fn without_ascii_ws(s: Seq<char>) -> Seq<char>
    decreases s.len(),
{
    if s.len() == 0 {
        Seq::empty()
    } else if is_ascii_ws(s.last()) {
        without_ascii_ws(s.drop_last())
    } else {
        without_ascii_ws(s.drop_last()).push(s.last())
    }
}

/// What the first engine that accepts the text decodes it to: standard,
/// standard without padding, URL-safe, URL-safe without padding.
pub open spec fn any_base64(c: Seq<char>) -> Option<Seq<u8>> {
    match base64_decoded(c) {
        Ok(v) => Some(v),
        Err(_) => match base64_nopad_decoded(c) {
            Ok(v) => Some(v),
            Err(_) => match url_safe_decoded(c) {
                Some(v) => Some(v),
                None => url_safe_nopad_decoded(c),
            },
        },
    }
}

/// An account's security key: its base64 text without whitespace decoded
/// by the first engine that accepts it, when that gives 16 bytes.
pub open spec fn security_key_spec(ssecurity: Seq<char>) -> Option<Seq<u8>> {
    match any_base64(without_ascii_ws(ssecurity)) {
        Some(v) => if v.len() == 16 {
            Some(v)
        } else {
            None
        },
        None => None,
    }
}

pub fn decode_security_key(ssecurity: &str) -> (r: Option<Vec<u8>>)
    ensures
        match r {
            Some(v) => security_key_spec(ssecurity@) == Some(v@),
            None => security_key_spec(ssecurity@) is None,
        },
{
    let v = chars_of(ssecurity);
    let mut compact: Vec<char> = Vec::new();
    let mut i: usize = 0;
    while i < v.len()
        invariant
            i <= v.len(),
            compact@ == without_ascii_ws(v@.take(i as int)),
        decreases v.len() - i,
    {
        proof {
            assert(v@.take(i + 1).drop_last() =~= v@.take(i as int));
        }
        if !is_ascii_whitespace(v[i]) {
            compact.push(v[i]);
        }
        i = i + 1;
    }
    proof {
        assert(v@.take(v.len() as int) =~= v@);
    }
    let text = string_of(&compact);
    let decoded = match base64_decode(text.as_str()) {
        Ok(d) => Some(d),
        Err(_) => match base64_nopad_decode(text.as_str()) {
            Ok(d) => Some(d),
            Err(_) => match url_safe_decode(text.as_str()) {
                Some(d) => Some(d),
                None => url_safe_nopad_decode(text.as_str()),
            },
        },
    };
    match decoded {
        Some(d) => if d.len() == 16 {
            Some(d)
        } else {
            None
        },
        None => None,
    }
}

/// The request context as plain values: account type, port, `ssecurity`,
/// key, service token, user id and encrypted user id.
pub type SecurityView = (Seq<char>, Seq<char>, Seq<char>, Seq<u8>, Seq<char>, Seq<char>, Seq<char>);

/// The public context: a `CN` account on port 1 with the public key and no
/// credentials.
pub open spec fn public_security() -> SecurityView {
    ("CN"@, "1"@, Seq::empty(), default_key_spec(), Seq::empty(), Seq::empty(), Seq::empty())
}

/// The context of a request: the account's (port 2, its type or `CN`) when
/// its session has not expired, it has all four credentials and its key
/// decodes to 16 bytes; else the public one.
pub open spec fn security_spec(login: Option<LoginData>) -> SecurityView {
    match login {
        Some(l) => {
            let ss = or_empty(opt_seq(l.ssecurity));
            let st = or_empty(opt_seq(l.service_token));
            let uid = or_empty(opt_seq(l.user_id));
            let cuid = or_empty(opt_seq(l.c_user_id));
            if opt_seq(l.auth_result) != Some("3"@) && ss.len() > 0 && st.len() > 0 && uid.len() > 0
                && cuid.len() > 0 && security_key_spec(ss) is Some {
                (
                    match opt_seq(l.account_type) {
                        Some(a) => a,
                        None => "CN"@,
                    },
                    "2"@,
                    ss,
                    security_key_spec(ss).unwrap(),
                    st,
                    uid,
                    cuid,
                )
            } else {
                public_security()
            }
        },
        None => public_security(),
    }
}

fn is_expired_mark(o: &Option<String>) -> (r: bool)
    ensures
        r == (opt_seq(*o) == Some("3"@)),
{
    match o {
        Some(t) => crate::text::str_eq(t.as_str(), "3"),
        None => false,
    }
}

pub fn get_security(login_data: Option<&LoginData>) -> (r: (String, String, String, Vec<u8>, String, String, String))
    ensures
        (r.0@, r.1@, r.2@, r.3@, r.4@, r.5@, r.6@) == security_spec(
            match login_data {
                Some(l) => Some(*l),
                None => None,
            },
        ),
{
    proof {
        reveal_strlit("CN");
        reveal_strlit("1");
        reveal_strlit("2");
        reveal_strlit("3");
    }
    match login_data {
        Some(login) => {
            if !is_expired_mark(&login.auth_result) {
                let account_type = match &login.account_type {
                    Some(a) => a.clone(),
                    None => String::from_str("CN"),
                };
                let ssecurity = owned_or_empty(&login.ssecurity);
                let service_token = owned_or_empty(&login.service_token);
                let user_id = owned_or_empty(&login.user_id);
                let c_user_id = owned_or_empty(&login.c_user_id);
                if chars_of(ssecurity.as_str()).len() > 0 && chars_of(service_token.as_str()).len() > 0
                    && chars_of(user_id.as_str()).len() > 0 && chars_of(c_user_id.as_str()).len() > 0 {
                    match decode_security_key(ssecurity.as_str()) {
                        Some(key) => {
                            return (
                                account_type,
                                String::from_str("2"),
                                ssecurity,
                                key,
                                service_token,
                                user_id,
                                c_user_id,
                            );
                        },
                        None => {},
                    }
                }
            }
        },
        None => {},
    }
    (
        String::from_str("CN"),
        String::from_str("1"),
        String::new(),
        default_security_key(),
        String::new(),
        String::new(),
        String::new(),
    )
}

} // verus!

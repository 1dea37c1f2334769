//! Web addresses as the `url` crate reads them: host, path, query and
//! fragment, and the key–value pairs of a form-encoded query.
use vstd::prelude::*;
use crate::text::{chars_of, eq_str, string_of};

verus! {

/// What a parsed address holds: its host, path, raw query, decoded query
/// pairs and fragment.
pub struct UrlView {
    pub host: Option<Seq<char>>,
    pub path: Seq<char>,
    pub query: Option<Seq<char>>,
    pub pairs: Seq<(Seq<char>, Seq<char>)>,
    pub fragment: Option<Seq<char>>,
}

/// The parts of a parsed address.
#[derive(Clone, Debug)]
pub struct UrlParts {
    pub host: Option<String>,
    pub path: String,
    pub query: Option<String>,
    pub pairs: Vec<(String, String)>,
    pub fragment: Option<String>,
}

pub open spec fn opt_str_view(o: Option<String>) -> Option<Seq<char>> {
    match o {
        Some(s) => Some(s@),
        None => None,
    }
}

pub open spec fn pair_views(v: Seq<(String, String)>) -> Seq<(Seq<char>, Seq<char>)> {
    v.map_values(|p: (String, String)| (p.0@, p.1@))
}

impl View for UrlParts {
    type V = UrlView;

    open spec fn view(&self) -> UrlView {
        UrlView {
            host: opt_str_view(self.host),
            path: self.path@,
            query: opt_str_view(self.query),
            pairs: pair_views(self.pairs@),
            fragment: opt_str_view(self.fragment),
        }
    }
}

/// What `url::Url::parse` reads a text as: nothing when it is not an
/// absolute address, else the address's parts.
pub uninterp spec fn parsed_url(text: Seq<char>) -> Option<UrlView>;

/// `url::Url::parse`, its result taken apart by `host_str`, `path`,
/// `query`, `query_pairs` (each pair decoded) and `fragment`. The parts
/// depend on the text alone; the path is percent-encoded ASCII, as
/// `Url::path` documents.
#[verifier::external_body]
pub fn parse_url(text: &str) -> (r: Option<UrlParts>)
    ensures
        match r {
            Some(p) => parsed_url(text@) == Some(p@) && forall|i: int|
                0 <= i < p.path@.len() ==> (#[trigger] p.path@[i] as u32) < 128,
            None => parsed_url(text@) is None,
        },
{
    match url::Url::parse(text) {
        Ok(u) => Some(
            UrlParts {
                host: u.host_str().map(|h| h.to_string()),
                path: u.path().to_string(),
                query: u.query().map(|q| q.to_string()),
                pairs: u.query_pairs().map(|(k, v)| (k.into_owned(), v.into_owned())).collect(),
                fragment: u.fragment().map(|f| f.to_string()),
            },
        ),
        Err(_) => None,
    }
}

/// The key–value pairs `url::form_urlencoded::parse` reads from the bytes
/// of a text, each decoded.
pub uninterp spec fn form_decoded(text: Seq<char>) -> Seq<(Seq<char>, Seq<char>)>;

/// `url::form_urlencoded::parse` on the text's bytes, its pairs collected.
/// They depend on the text alone.
#[verifier::external_body]
pub fn form_pairs(text: &str) -> (r: Vec<(String, String)>)
    ensures
        pair_views(r@) == form_decoded(text@),
{
    url::form_urlencoded::parse(text.as_bytes()).map(|(k, v)| (k.into_owned(), v.into_owned())).collect()
}

/// The value of the first pair whose key is one of `keys`.
pub open spec fn first_value_of(pairs: Seq<(Seq<char>, Seq<char>)>, keys: Seq<Seq<char>>) -> Option<
    Seq<char>,
>
    decreases pairs.len(),
{
    if pairs.len() == 0 {
        None
    } else if keys.contains(pairs[0].0) {
        Some(pairs[0].1)
    } else {
        first_value_of(pairs.drop_first(), keys)
    }
}

pub open spec fn str_views(v: Seq<&str>) -> Seq<Seq<char>> {
    v.map_values(|s: &str| s@)
}

fn key_in(key: &String, keys: &[&str]) -> (r: bool)
    ensures
        r == str_views(keys@).contains(key@),
{
    let mut i: usize = 0;
    while i < keys.len()
        invariant
            i <= keys.len(),
            forall|j: int| 0 <= j < i ==> str_views(keys@)[j] != key@,
        decreases keys.len() - i,
    {
        if eq_str(&chars_of(key.as_str()), keys[i]) {
            proof {
                assert(str_views(keys@)[i as int] == key@);
            }
            return true;
        }
        i = i + 1;
    }
    false
}

/// The value of the first pair whose key is one of `keys`.
pub fn first_value(pairs: &Vec<(String, String)>, keys: &[&str]) -> (r: Option<String>)
    ensures
        opt_str_view(r) == first_value_of(pair_views(pairs@), str_views(keys@)),
{
    let mut i: usize = 0;
    proof {
        assert(pair_views(pairs@).skip(0) =~= pair_views(pairs@));
    }
    while i < pairs.len()
        invariant
            i <= pairs.len(),
            first_value_of(pair_views(pairs@).skip(i as int), str_views(keys@)) == first_value_of(
                pair_views(pairs@),
                str_views(keys@),
            ),
        decreases pairs.len() - i,
    {
        proof {
            let s = pair_views(pairs@).skip(i as int);
            assert(s[0] == (pairs@[i as int].0@, pairs@[i as int].1@));
            assert(s.drop_first() =~= pair_views(pairs@).skip(i + 1));
        }
        if key_in(&pairs[i].0, keys) {
            return Some(pairs[i].1.clone());
        }
        i = i + 1;
    }
    None
}

} // verus!

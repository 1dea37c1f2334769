//! Download links of a ROM package: the path a package is served under and
//! the official and CDN mirrors built from it.
use vstd::prelude::*;
use crate::text::{
    chars_of, concat, push_str, starts_with_str, str_eq, string_of, strip_leading,
    strip_trailing, trim_end_matches, trim_start_matches, has_prefix,
};

verus! {

/// Host of the first official mirror.
pub open spec fn ultimate_host() -> Seq<char> {
    "https://ultimateota.d.miui.com"@
}

/// Host of the second official mirror.
pub open spec fn super_host() -> Seq<char> {
    "https://superota.d.miui.com"@
}

/// Host of the first CDN mirror.
pub open spec fn aliyun_host() -> Seq<char> {
    "https://bkt-sgp-miui-ota-update-alisgp.oss-ap-southeast-1.aliyuncs.com"@
}

/// Host of the second CDN mirror.
pub open spec fn cdn_org_host() -> Seq<char> {
    "https://cdnorg.d.miui.com"@
}

/// A string that may be missing, by its view.
pub open spec fn opt_str(o: Option<&str>) -> Option<Seq<char>> {
    match o {
        Some(s) => Some(s@),
        None => None,
    }
}

/// A path segment: the value, or `null` where it is missing.
pub open spec fn segment_spec(value: Option<Seq<char>>) -> Seq<char> {
    match value {
        Some(v) => v,
        None => "null"@,
    }
}

/// The path of a ROM package: `/{version}/{filename}`.
pub open spec fn rom_path_spec(version: Option<Seq<char>>, filename: Option<Seq<char>>) -> Seq<
    char,
> {
    "/"@ + segment_spec(version) + "/"@ + segment_spec(filename)
}

/// The value, or `"null"` where it is missing.
fn nullable_segment(value: Option<&str>) -> (r: &str)
    ensures
        r@ == segment_spec(opt_str(value)),
{
    match value {
        Some(v) => v,
        None => "null",
    }
}

/// The path a ROM package is served under, `/{version}/{filename}`, with
/// `null` for a missing part.
pub fn rom_path(version: Option<&str>, filename: Option<&str>) -> (r: String)
    ensures
        r@ == rom_path_spec(opt_str(version), opt_str(filename)),
{
    let mut r = String::from_str("/");
    push_str(&mut r, nullable_segment(version));
    push_str(&mut r, "/");
    push_str(&mut r, nullable_segment(filename));
    r
}

/// The path of a package to download, and whether the official mirrors can
/// serve it.
#[derive(Debug, Clone, PartialEq, Eq)]
pub struct ResolvedDownloadPath {
    path: String,
    no_ultimate_link: bool,
}

/// A resolved download path as plain values.
pub struct ResolvedView {
    pub path: Seq<char>,
    pub no_ultimate_link: bool,
}

impl View for ResolvedDownloadPath {
    type V = ResolvedView;

    closed spec fn view(&self) -> ResolvedView {
        ResolvedView { path: self.path@, no_ultimate_link: self.no_ultimate_link }
    }
}

impl ResolvedDownloadPath {
    /// A package the official mirrors serve.
    pub fn ultimate(version: Option<&str>, filename: Option<&str>) -> (r: Self)
        ensures
            r@.path == rom_path_spec(opt_str(version), opt_str(filename)),
            !r@.no_ultimate_link,
    {
        ResolvedDownloadPath { path: rom_path(version, filename), no_ultimate_link: false }
    }

    /// A package only the CDN mirrors serve.
    pub fn fallback(version: Option<&str>, filename: Option<&str>) -> (r: Self)
        ensures
            r@.path == rom_path_spec(opt_str(version), opt_str(filename)),
            r@.no_ultimate_link,
    {
        ResolvedDownloadPath { path: rom_path(version, filename), no_ultimate_link: true }
    }

    pub fn path(&self) -> (r: &str)
        ensures
            r@ == self@.path,
    {
        self.path.as_str()
    }

    pub fn no_ultimate_link(&self) -> (r: bool)
        ensures
            r == self@.no_ultimate_link,
    {
        self.no_ultimate_link
    }
}

/// What is known of the installed and the latest package, and what a probe
/// of the update server found.
#[derive(Debug, Clone, Copy, Default, PartialEq, Eq)]
pub struct CurrentDownloadProbe<'a> {
    pub current_version: Option<&'a str>,
    pub current_filename: Option<&'a str>,
    pub current_md5: Option<&'a str>,
    pub latest_md5: Option<&'a str>,
    pub latest_filename: Option<&'a str>,
    pub probe_current_version: Option<&'a str>,
    pub probe_latest_filename: Option<&'a str>,
}

/// A probe as plain values.
pub struct ProbeView {
    pub current_version: Option<Seq<char>>,
    pub current_filename: Option<Seq<char>>,
    pub current_md5: Option<Seq<char>>,
    pub latest_md5: Option<Seq<char>>,
    pub latest_filename: Option<Seq<char>>,
    pub probe_current_version: Option<Seq<char>>,
    pub probe_latest_filename: Option<Seq<char>>,
}

impl<'a> View for CurrentDownloadProbe<'a> {
    type V = ProbeView;

    open spec fn view(&self) -> ProbeView {
        ProbeView {
            current_version: opt_str(self.current_version),
            current_filename: opt_str(self.current_filename),
            current_md5: opt_str(self.current_md5),
            latest_md5: opt_str(self.latest_md5),
            latest_filename: opt_str(self.latest_filename),
            probe_current_version: opt_str(self.probe_current_version),
            probe_latest_filename: opt_str(self.probe_latest_filename),
        }
    }
}

/// Where the current package is downloaded from: the latest package's file
/// when the checksums agree, else the file the probe found, else the current
/// file from the CDN only.
pub open spec fn resolve_spec(p: ProbeView) -> ResolvedView {
    if p.current_md5 == p.latest_md5 {
        ResolvedView {
            path: rom_path_spec(p.current_version, p.latest_filename),
            no_ultimate_link: false,
        }
    } else if p.probe_latest_filename is Some {
        ResolvedView {
            path: rom_path_spec(p.probe_current_version, p.probe_latest_filename),
            no_ultimate_link: false,
        }
    } else {
        ResolvedView {
            path: rom_path_spec(p.current_version, p.current_filename),
            no_ultimate_link: true,
        }
    }
}

/// Equality of two strings that may be missing.
fn opt_str_eq(a: Option<&str>, b: Option<&str>) -> (r: bool)
    ensures
        r == (opt_str(a) == opt_str(b)),
{
    match (a, b) {
        (Some(x), Some(y)) => str_eq(x, y),
        (None, None) => true,
        _ => false,
    }
}

/// Resolves where the current package is downloaded from.
pub fn resolve_current_download(probe: CurrentDownloadProbe<'_>) -> (r: ResolvedDownloadPath)
    ensures
        r@ == resolve_spec(probe@),
{
    if opt_str_eq(probe.current_md5, probe.latest_md5) {
        return ResolvedDownloadPath::ultimate(probe.current_version, probe.latest_filename);
    }
    if let Some(filename) = probe.probe_latest_filename {
        return ResolvedDownloadPath::ultimate(probe.probe_current_version, Some(filename));
    }
    ResolvedDownloadPath::fallback(probe.current_version, probe.current_filename)
}

/// Which path the official mirrors serve, if any.
#[derive(Debug, Clone, Copy, PartialEq, Eq)]
pub enum OfficialPath<'a> {
    SameAsDirect,
    Resolved(&'a str),
    Unavailable,
}

/// An official path as plain values.
pub enum OfficialView {
    SameAsDirect,
    Resolved(Seq<char>),
    Unavailable,
}

impl<'a> View for OfficialPath<'a> {
    type V = OfficialView;

    open spec fn view(&self) -> OfficialView {
        match self {
            OfficialPath::SameAsDirect => OfficialView::SameAsDirect,
            OfficialPath::Resolved(p) => OfficialView::Resolved(p@),
            OfficialPath::Unavailable => OfficialView::Unavailable,
        }
    }
}

/// The official path a resolved download gives.
pub open spec fn official_of(resolved: Option<ResolvedView>) -> OfficialView {
    match resolved {
        Some(d) => if d.no_ultimate_link {
            OfficialView::Unavailable
        } else {
            OfficialView::Resolved(d.path)
        },
        None => OfficialView::SameAsDirect,
    }
}

impl<'a> OfficialPath<'a> {
    pub fn from_resolved(resolved: Option<&'a ResolvedDownloadPath>) -> (r: Self)
        ensures
            r@ == official_of(
                match resolved {
                    Some(d) => Some(d@),
                    None => None,
                },
            ),
    {
        match resolved {
            Some(download) => if download.no_ultimate_link {
                OfficialPath::Unavailable
            } else {
                OfficialPath::Resolved(download.path())
            },
            None => OfficialPath::SameAsDirect,
        }
    }
}

/// The four download links of a package.
#[derive(Debug, Clone, Default, PartialEq, Eq)]
pub struct DownloadLinks {
    pub official1: String,
    pub official2: String,
    pub cdn1: String,
    pub cdn2: String,
}

/// The links as plain values.
pub struct LinksView {
    pub official1: Seq<char>,
    pub official2: Seq<char>,
    pub cdn1: Seq<char>,
    pub cdn2: Seq<char>,
}

impl View for DownloadLinks {
    type V = LinksView;

    open spec fn view(&self) -> LinksView {
        LinksView {
            official1: self.official1@,
            official2: self.official2@,
            cdn1: self.cdn1@,
            cdn2: self.cdn2@,
        }
    }
}

/// The links of a package: the CDN mirrors always serve the direct path; the
/// official mirrors serve the direct path, the resolved path, or nothing.
pub open spec fn links_spec(
    version: Option<Seq<char>>,
    filename: Option<Seq<char>>,
    official: OfficialView,
) -> LinksView {
    let direct = rom_path_spec(version, filename);
    let (o1, o2) = match official {
        OfficialView::SameAsDirect => (ultimate_host() + direct, super_host() + direct),
        OfficialView::Resolved(p) => (ultimate_host() + p, super_host() + p),
        OfficialView::Unavailable => (Seq::<char>::empty(), Seq::<char>::empty()),
    };
    LinksView {
        official1: o1,
        official2: o2,
        cdn1: aliyun_host() + direct,
        cdn2: cdn_org_host() + direct,
    }
}

/// The two official links of a path.
fn official_links(path: &str) -> (r: (String, String))
    ensures
        r.0@ == ultimate_host() + path@,
        r.1@ == super_host() + path@,
{
    (concat("https://ultimateota.d.miui.com", path), concat("https://superota.d.miui.com", path))
}

impl DownloadLinks {
    pub fn for_rom(version: Option<&str>, filename: Option<&str>, official_path: OfficialPath<'_>) -> (r: Self)
        ensures
            r@ == links_spec(opt_str(version), opt_str(filename), official_path@),
    {
        let direct_path = rom_path(version, filename);
        let (official1, official2) = match official_path {
            OfficialPath::SameAsDirect => official_links(direct_path.as_str()),
            OfficialPath::Resolved(path) => official_links(path),
            OfficialPath::Unavailable => (String::new(), String::new()),
        };
        DownloadLinks {
            official1,
            official2,
            cdn1: concat(
                "https://bkt-sgp-miui-ota-update-alisgp.oss-ap-southeast-1.aliyuncs.com",
                direct_path.as_str(),
            ),
            cdn2: concat("https://cdnorg.d.miui.com", direct_path.as_str()),
        }
    }
}

/// A download address of a system app: an absolute address stays as it is,
/// a relative one is put under the first mirror; nothing comes of an empty
/// address, or of a relative one with no mirror.
pub open spec fn xms_url_spec(raw: Seq<char>, mirrors: Seq<Seq<char>>) -> Option<Seq<char>> {
    if raw.len() == 0 {
        None
    } else if has_prefix(raw, "http://"@) || has_prefix(raw, "https://"@) {
        Some(raw)
    } else if mirrors.len() == 0 {
        None
    } else {
        Some(strip_trailing(mirrors[0], '/') + "/"@ + strip_leading(raw, '/'))
    }
}

pub fn resolve_xms_download_url(raw: &str, mirrors: &[String]) -> (r: Option<String>)
    ensures
        r matches Some(s) ==> xms_url_spec(raw@, crate::text::views(mirrors@)) == Some(s@),
        r is None ==> xms_url_spec(raw@, crate::text::views(mirrors@)) is None,
{
    let rv = chars_of(raw);
    if rv.len() == 0 {
        return None;
    }
    if starts_with_str(&rv, "http://") || starts_with_str(&rv, "https://") {
        return Some(raw.to_owned());
    }
    if mirrors.len() == 0 {
        return None;
    }
    let mv = chars_of(mirrors[0].as_str());
    let mut out = trim_end_matches(&mv, '/');
    let ghost head = out@;
    out.push('/');
    let tail = trim_start_matches(&rv, '/');
    crate::text::extend_chars(&mut out, &tail);
    proof {
        reveal_strlit("/");
        assert(crate::text::views(mirrors@)[0] == mirrors@[0]@);
        assert(out@ =~= head + "/"@ + tail@);
    }
    Some(string_of(&out))
}

/// With the official mirrors unavailable for a resolved package, its links
/// hold no official address, whatever the version and file name.
pub proof fn lemma_unavailable_hides_official(
    resolved: ResolvedView,
    version: Option<Seq<char>>,
    filename: Option<Seq<char>>,
)
    requires
        resolved.no_ultimate_link,
    ensures
        links_spec(version, filename, official_of(Some(resolved))).official1.len() == 0,
        links_spec(version, filename, official_of(Some(resolved))).official2.len() == 0,
{
}

/// The CDN links always serve the direct path, whichever official path is
/// chosen.
pub proof fn lemma_cdn_links_follow_direct_path(
    version: Option<Seq<char>>,
    filename: Option<Seq<char>>,
    a: OfficialView,
    b: OfficialView,
)
    ensures
        links_spec(version, filename, a).cdn1 == links_spec(version, filename, b).cdn1,
        links_spec(version, filename, a).cdn2 == links_spec(version, filename, b).cdn2,
{
}

} // verus!

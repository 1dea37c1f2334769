//! The decisions of a ROM query around the update server's answers: where
//! the current package is downloaded from, which system-app report is
//! shown, and the answer the user gets.
use vstd::prelude::*;
use crate::rom_core::{LoginData, QueryResult, RomDownloadResult, RomQuery, XmsAppInfo, XmsInfoData};
use crate::rom_links::{
    resolve_current_download, resolve_spec, CurrentDownloadProbe, DownloadLinks, LinksView,
    ProbeView, ResolvedDownloadPath, ResolvedView,
};
use crate::rom_map::{
    empty_rom_view, icon_views, image_views, map_rom, opt_rom_view, opt_seq, or_empty,
    rom_icons_spec, rom_images_spec, rom_present, rom_view_spec, xms_info_spec, ChangelogGroup,
    IconView, ImageView, Rom, RomInfo, RomInfoView, XmsInfoView, XmsUpdateInfo,
};
use crate::rom_map::{app_views, map_xms_apps, xms_apps_spec, XmsApkInfo, XmsDto};
use crate::text::views;
use crate::text::{chars_of, contains_seq, contains_str};
use crate::urlparts::{first_value, first_value_of, parse_url, parsed_url, str_views};

verus! {

/// What a package of an answer shows: its details, icon and image entries.
pub open spec fn rom_part(recovery: RomInfo, rom: Option<Rom>, resolved: Option<ResolvedView>) -> (
    RomInfoView,
    Seq<IconView>,
    Seq<ImageView>,
) {
    match rom {
        Some(x) if x.bigversion is Some => (
            rom_view_spec(recovery, x, resolved),
            rom_icons_spec(recovery, x),
            rom_images_spec(recovery, x),
        ),
        _ => (empty_rom_view(), Seq::empty(), Seq::empty()),
    }
}

/// The answer to a query as plain values.
pub struct QueryView {
    pub ok: bool,
    pub message: Seq<char>,
    pub cur_rom_info: RomInfoView,
    pub inc_rom_info: RomInfoView,
    pub cur_icon_info: Seq<IconView>,
    pub inc_icon_info: Seq<IconView>,
    pub cur_image_info: Seq<ImageView>,
    pub inc_image_info: Seq<ImageView>,
    pub xms_info: XmsInfoView,
    pub no_ultimate_link: bool,
    pub is_fallback: bool,
    pub login_data: Option<LoginData>,
}

impl View for QueryResult {
    type V = QueryView;

    open spec fn view(&self) -> QueryView {
        QueryView {
            ok: self.ok,
            message: self.message@,
            cur_rom_info: self.cur_rom_info@,
            inc_rom_info: self.inc_rom_info@,
            cur_icon_info: icon_views(self.cur_icon_info@),
            inc_icon_info: icon_views(self.inc_icon_info@),
            cur_image_info: image_views(self.cur_image_info@),
            inc_image_info: image_views(self.inc_image_info@),
            xms_info: self.xms_info@,
            no_ultimate_link: self.no_ultimate_link,
            is_fallback: self.is_fallback,
            login_data: self.login_data,
        }
    }
}

/// System-app updates with nothing in them.
pub open spec fn empty_xms_view() -> XmsInfoView {
    xms_info_spec(None, Seq::empty(), Seq::empty())
}

/// An answer with only its flag, message and session.
pub open spec fn bare_answer(ok: bool, message: Seq<char>, login: Option<LoginData>) -> QueryView {
    QueryView {
        ok,
        message,
        cur_rom_info: empty_rom_view(),
        inc_rom_info: empty_rom_view(),
        cur_icon_info: Seq::empty(),
        inc_icon_info: Seq::empty(),
        cur_image_info: Seq::empty(),
        inc_image_info: Seq::empty(),
        xms_info: empty_xms_view(),
        no_ultimate_link: false,
        is_fallback: false,
        login_data: login,
    }
}

fn empty_xms() -> (r: XmsInfoData)
    ensures
        r@ == empty_xms_view(),
{
    let r = XmsInfoData {
        has_update: false,
        cur_ver: String::new(),
        lst_ver: String::new(),
        pkg_cnt: 0,
        prio: 0,
        apps: Vec::new(),
        gentle_notice: String::new(),
        changelog_items: Vec::new(),
        changelog_text: String::new(),
    };
    proof {
        assert(image_views(r.changelog_items@) =~= Seq::<ImageView>::empty());
        assert(crate::rom_map::app_views(r.apps@) =~= Seq::<crate::rom_map::AppView>::empty());
    }
    r
}

fn bare_result(ok: bool, message: &str, login_data: Option<LoginData>) -> (r: QueryResult)
    ensures
        r@ == bare_answer(ok, message@, login_data),
{
    let r = QueryResult {
        ok,
        message: message.to_owned(),
        cur_rom_info: crate::rom_map::empty_rom_info(),
        inc_rom_info: crate::rom_map::empty_rom_info(),
        cur_icon_info: Vec::new(),
        inc_icon_info: Vec::new(),
        cur_image_info: Vec::new(),
        inc_image_info: Vec::new(),
        xms_info: empty_xms(),
        no_ultimate_link: false,
        is_fallback: false,
        login_data,
    };
    proof {
        assert(icon_views(r.cur_icon_info@) =~= Seq::<IconView>::empty());
        assert(icon_views(r.inc_icon_info@) =~= Seq::<IconView>::empty());
        assert(image_views(r.cur_image_info@) =~= Seq::<ImageView>::empty());
        assert(image_views(r.inc_image_info@) =~= Seq::<ImageView>::empty());
    }
    r
}

/// A query misses what the server needs: the code name, the Android
/// version or the system version is empty.
pub open spec fn query_incomplete_spec(q: RomQuery) -> bool {
    q.code_name@.len() == 0 || q.android_version@.len() == 0 || q.system_version@.len() == 0
}

pub fn query_is_incomplete(query: &RomQuery) -> (r: bool)
    ensures
        r == query_incomplete_spec(*query),
{
    chars_of(query.code_name.as_str()).len() == 0 || chars_of(query.android_version.as_str()).len()
        == 0 || chars_of(query.system_version.as_str()).len() == 0
}

/// The answer when there is nothing to show.
pub fn no_information_result(login_data: Option<LoginData>) -> (r: QueryResult)
    ensures
        r@ == bare_answer(false, "No information!"@, login_data),
{
    bare_result(false, "No information!", login_data)
}

/// A server error that says the session has run out.
pub open spec fn session_expired_spec(error: Seq<char>) -> bool {
    contains_seq(error, "code 2001"@)
}

pub fn is_session_expired_error(error: &str) -> (r: bool)
    ensures
        r == session_expired_spec(error@),
{
    let v = chars_of(error);
    contains_str(&v, "code 2001")
}

/// Whether the server took the session as signed in.
pub fn session_authorized(recovery: &RomInfo) -> (r: bool)
    ensures
        r == (recovery.auth_result == Some(1i64)),
{
    match recovery.auth_result {
        Some(a) => a == 1,
        None => false,
    }
}

/// The session marked as expired: its auth result set to `3`.
pub fn expired_login_data(login_data: &LoginData) -> (r: LoginData)
    ensures
        opt_seq(r.auth_result) == Some("3"@),
        opt_seq(r.account_type) == opt_seq(login_data.account_type),
        opt_seq(r.description) == opt_seq(login_data.description),
        opt_seq(r.ssecurity) == opt_seq(login_data.ssecurity),
        opt_seq(r.service_token) == opt_seq(login_data.service_token),
        opt_seq(r.user_id) == opt_seq(login_data.user_id),
        opt_seq(r.c_user_id) == opt_seq(login_data.c_user_id),
        opt_seq(r.pass_token) == opt_seq(login_data.pass_token),
{
    LoginData {
        account_type: login_data.account_type.clone(),
        auth_result: Some(String::from_str("3")),
        description: login_data.description.clone(),
        ssecurity: login_data.ssecurity.clone(),
        service_token: login_data.service_token.clone(),
        user_id: login_data.user_id.clone(),
        c_user_id: login_data.c_user_id.clone(),
        pass_token: login_data.pass_token.clone(),
    }
}

/// The md5 of a package that may be missing.
pub open spec fn md5_of(rom: Option<Rom>) -> Option<Seq<char>> {
    match rom {
        Some(r) => opt_seq(r.md5),
        None => None,
    }
}

/// A text field of a package that may be missing.
pub open spec fn field_of(rom: Option<Rom>, version: bool) -> Option<Seq<char>> {
    match rom {
        Some(r) => if version {
            opt_seq(r.version)
        } else {
            opt_seq(r.filename)
        },
        None => None,
    }
}

/// Whether the server must be probed for the current package's file: its
/// md5 differs from the latest package's.
pub open spec fn probe_needed_spec(recovery: RomInfo) -> bool {
    md5_of(recovery.current_rom) != md5_of(recovery.latest_rom)
}

fn opt_string_eq(a: &Option<String>, b: &Option<String>) -> (r: bool)
    ensures
        r == (opt_seq(*a) == opt_seq(*b)),
{
    match (a, b) {
        (Some(x), Some(y)) => crate::text::str_eq(x.as_str(), y.as_str()),
        (None, None) => true,
        _ => false,
    }
}

fn md5_field(rom: &Option<Rom>) -> (r: Option<&str>)
    ensures
        crate::rom_links::opt_str(r) == md5_of(*rom),
{
    match rom {
        Some(x) => match &x.md5 {
            Some(m) => Some(m.as_str()),
            None => None,
        },
        None => None,
    }
}

fn text_field(rom: &Option<Rom>, version: bool) -> (r: Option<&str>)
    ensures
        crate::rom_links::opt_str(r) == field_of(*rom, version),
{
    match rom {
        Some(x) => {
            let f = if version {
                &x.version
            } else {
                &x.filename
            };
            match f {
                Some(t) => Some(t.as_str()),
                None => None,
            }
        },
        None => None,
    }
}

pub fn needs_download_probe(recovery: &RomInfo) -> (r: bool)
    ensures
        r == probe_needed_spec(*recovery),
{
    let a = md5_field(&recovery.current_rom);
    let b = md5_field(&recovery.latest_rom);
    match (a, b) {
        (Some(x), Some(y)) => !crate::text::str_eq(x, y),
        (None, None) => false,
        _ => true,
    }
}

/// The probe of the current package: the current and latest packages of
/// the answer, and what the probe answer (or, without one, the answer
/// itself) lists.
pub open spec fn probe_of(recovery: RomInfo, probe: RomInfo) -> ProbeView {
    ProbeView {
        current_version: field_of(recovery.current_rom, true),
        current_filename: field_of(recovery.current_rom, false),
        current_md5: md5_of(recovery.current_rom),
        latest_md5: md5_of(recovery.latest_rom),
        latest_filename: field_of(recovery.latest_rom, false),
        probe_current_version: field_of(probe.current_rom, true),
        probe_latest_filename: field_of(probe.latest_rom, false),
    }
}

/// Where the current package is downloaded from, with the probe answer
/// when the server was probed (the answer itself stands in for a probe
/// that failed).
pub fn current_download(recovery: &RomInfo, probe: Option<&RomInfo>) -> (r: ResolvedDownloadPath)
    ensures
        r@ == resolve_spec(
            probe_of(
                *recovery,
                match probe {
                    Some(p) => *p,
                    None => *recovery,
                },
            ),
        ),
{
    let p = match probe {
        Some(p) => p,
        None => recovery,
    };
    let probe_data = CurrentDownloadProbe {
        current_version: text_field(&recovery.current_rom, true),
        current_filename: text_field(&recovery.current_rom, false),
        current_md5: md5_field(&recovery.current_rom),
        latest_md5: md5_field(&recovery.latest_rom),
        latest_filename: text_field(&recovery.latest_rom, false),
        probe_current_version: text_field(&p.current_rom, true),
        probe_latest_filename: text_field(&p.latest_rom, false),
    };
    resolve_current_download(probe_data)
}

/// The system-app version to ask the server about again: the latest one,
/// when the report says there is an update to a named version.
pub open spec fn xms_follow_up_spec(recovery: RomInfo) -> Option<Seq<char>> {
    match recovery.xms_update_info {
        Some(x) => if x.has_xms_update == 1 && or_empty(opt_seq(x.lst_ver)).len() > 0 {
            opt_seq(x.lst_ver)
        } else {
            None
        },
        None => None,
    }
}

pub fn xms_follow_up_version(recovery: &RomInfo) -> (r: Option<String>)
    ensures
        opt_seq(r) == xms_follow_up_spec(*recovery),
{
    match &recovery.xms_update_info {
        Some(x) => {
            if x.has_xms_update == 1 {
                match &x.lst_ver {
                    Some(v) => if chars_of(v.as_str()).len() > 0 {
                        Some(v.clone())
                    } else {
                        None
                    },
                    None => None,
                }
            } else {
                None
            }
        },
        None => None,
    }
}

/// The system-app report shown: the answer's, its change log replaced by
/// the follow-up answer's when there is one.
pub fn xms_report(xms: Option<XmsUpdateInfo>, follow_up: Option<Vec<ChangelogGroup>>) -> (r: Option<
    XmsUpdateInfo,
>)
    ensures
        r == match xms {
            None => None,
            Some(x) => Some(
                XmsUpdateInfo {
                    change_log: match follow_up {
                        Some(c) => c,
                        None => x.change_log,
                    },
                    ..x
                },
            ),
        },
{
    match xms {
        None => None,
        Some(x) => {
            let mut y = x;
            match follow_up {
                Some(c) => {
                    y.change_log = c;
                },
                None => {},
            }
            Some(y)
        },
    }
}

/// The change log of the follow-up answer about the system-app version:
/// the report's log when the request brought an answer with a report;
/// nothing when it failed or brought none.
pub fn xms_follow_up_log(answer: Result<Option<RomInfo>, String>) -> (r: Option<Vec<ChangelogGroup>>)
    ensures
        r == match answer {
            Ok(Some(rec)) => match rec.xms_update_info {
                Some(x) => Some(x.change_log),
                None => None,
            },
            _ => None,
        },
{
    match answer {
        Ok(Some(rec)) => match rec.xms_update_info {
            Some(x) => Some(x.change_log),
            None => None,
        },
        _ => None,
    }
}

/// The system apps listed in the answer to the system-app request; none
/// when the request failed or brought no answer.
pub fn xms_apps_of(answer: Result<Option<XmsDto>, String>) -> (r: Vec<XmsAppInfo>)
    ensures
        app_views(r@) == match answer {
            Ok(Some(dto)) => xms_apps_spec(dto.apk_lists@.map_values(|a: XmsApkInfo| a@), views(dto.mirror_list@)),
            _ => Seq::empty(),
        },
{
    match answer {
        Ok(Some(dto)) => map_xms_apps(dto),
        _ => {
            let v: Vec<XmsAppInfo> = Vec::new();
            proof {
                assert(app_views(v@) =~= Seq::empty());
            }
            v
        },
    }
}

/// The answer about the current package alone, when the request brought
/// one; with none, the first answer stands in for it.
pub fn probe_answer(answer: Result<Option<RomInfo>, String>) -> (r: Option<RomInfo>)
    ensures
        r == match answer {
            Ok(Some(p)) => Some(p),
            _ => None::<RomInfo>,
        },
{
    match answer {
        Ok(Some(p)) => Some(p),
        _ => None,
    }
}

/// The mirror the answer's pictures are on.
pub fn image_mirror_of(recovery: &RomInfo) -> (r: String)
    ensures
        r@ == crate::rom_map::mirror_of(recovery.file_mirror, false),
{
    match &recovery.file_mirror {
        Some(m) => m.image.clone(),
        None => String::new(),
    }
}

/// The package offered besides the current one: the incremental, else the
/// cross package.
pub open spec fn other_rom(recovery: RomInfo) -> Option<Rom> {
    if recovery.increment_rom is Some {
        recovery.increment_rom
    } else {
        recovery.cross_rom
    }
}

/// The answer to a query once the server has answered: the current package
/// with its download and increment when there is one; else the other
/// package as a fallback; else nothing. With it, the address to read the
/// current package's metadata from: the first CDN link when the official
/// mirrors cannot serve it, else the first official link (empty without a
/// current package).
pub open spec fn query_answer(
    recovery: RomInfo,
    download: Option<ResolvedView>,
    xms: XmsInfoView,
    login: Option<LoginData>,
) -> (QueryView, Seq<char>) {
    if rom_present(recovery.current_rom) {
        let cur = rom_part(recovery, recovery.current_rom, download);
        let inc = rom_part(recovery, other_rom(recovery), None);
        let no_ultimate = match download {
            Some(d) => d.no_ultimate_link,
            None => false,
        };
        (
            QueryView {
                ok: true,
                message: if no_ultimate {
                    "Unable to get ultimate link!"@
                } else {
                    "Request successful!"@
                },
                cur_rom_info: cur.0,
                inc_rom_info: inc.0,
                cur_icon_info: cur.1,
                inc_icon_info: inc.1,
                cur_image_info: cur.2,
                inc_image_info: inc.2,
                xms_info: xms,
                no_ultimate_link: no_ultimate,
                is_fallback: false,
                login_data: login,
            },
            if no_ultimate {
                cur.0.cdn1_download
            } else {
                cur.0.official1_download
            },
        )
    } else if rom_present(other_rom(recovery)) {
        let cur = rom_part(recovery, other_rom(recovery), None);
        (
            QueryView {
                ok: true,
                message: "Requested version does not exist!"@,
                cur_rom_info: cur.0,
                inc_rom_info: empty_rom_view(),
                cur_icon_info: cur.1,
                inc_icon_info: Seq::empty(),
                cur_image_info: cur.2,
                inc_image_info: Seq::empty(),
                xms_info: xms,
                no_ultimate_link: false,
                is_fallback: true,
                login_data: login,
            },
            Seq::empty(),
        )
    } else {
        (bare_answer(false, "No information!"@, login), Seq::empty())
    }
}

fn rom_ref(o: &Option<Rom>) -> (r: Option<&Rom>)
    ensures
        match r {
            Some(x) => *o == Some(*x),
            None => *o is None,
        },
{
    match o {
        Some(x) => Some(x),
        None => None,
    }
}

fn other_rom_ref(recovery: &RomInfo) -> (r: Option<&Rom>)
    ensures
        match r {
            Some(x) => other_rom(*recovery) == Some(*x),
            None => other_rom(*recovery) is None,
        },
{
    if recovery.increment_rom.is_some() {
        rom_ref(&recovery.increment_rom)
    } else {
        rom_ref(&recovery.cross_rom)
    }
}

pub fn has_current_rom(recovery: &RomInfo) -> (r: bool)
    ensures
        r == rom_present(recovery.current_rom),
{
    match &recovery.current_rom {
        Some(x) => x.bigversion.is_some(),
        None => false,
    }
}

/// The answer to a query; the current package's download is needed when
/// the answer has a current package.
pub fn rom_query_result(
    recovery: &RomInfo,
    download: Option<&ResolvedDownloadPath>,
    xms_info: XmsInfoData,
    session_update: Option<LoginData>,
) -> (r: (QueryResult, String))
    requires
        rom_present(recovery.current_rom) ==> download is Some,
    ensures
        (r.0@, r.1@) == query_answer(*recovery, opt_rom_view(download), xms_info@, session_update),
{
    proof {
        reveal_strlit("");
    }
    if has_current_rom(recovery) {
        let (cur_rom_info, cur_icons, cur_images) = map_rom(
            recovery,
            rom_ref(&recovery.current_rom),
            download,
        );
        let no_ultimate_link = match download {
            Some(d) => d.no_ultimate_link(),
            None => false,
        };
        let (inc_rom_info, inc_icons, inc_images) = map_rom(recovery, other_rom_ref(recovery), None);
        let metadata_url = if no_ultimate_link {
            cur_rom_info.cdn1_download.clone()
        } else {
            cur_rom_info.official1_download.clone()
        };
        let message = if no_ultimate_link {
            String::from_str("Unable to get ultimate link!")
        } else {
            String::from_str("Request successful!")
        };
        let r = QueryResult {
            ok: true,
            message,
            cur_rom_info,
            inc_rom_info,
            cur_icon_info: cur_icons,
            inc_icon_info: inc_icons,
            cur_image_info: cur_images,
            inc_image_info: inc_images,
            xms_info,
            no_ultimate_link,
            is_fallback: false,
            login_data: session_update,
        };
        proof {
            if !rom_present(other_rom(*recovery)) {
                assert(icon_views(r.inc_icon_info@) =~= Seq::<IconView>::empty());
                assert(image_views(r.inc_image_info@) =~= Seq::<ImageView>::empty());
            }
        }
        return (r, metadata_url);
    }
    let fallback = other_rom_ref(recovery);
    let present = match fallback {
        Some(x) => x.bigversion.is_some(),
        None => false,
    };
    if present {
        let (cur_rom_info, cur_icons, cur_images) = map_rom(recovery, fallback, None);
        let r = QueryResult {
            ok: true,
            message: String::from_str("Requested version does not exist!"),
            cur_rom_info,
            inc_rom_info: crate::rom_map::empty_rom_info(),
            cur_icon_info: cur_icons,
            inc_icon_info: Vec::new(),
            cur_image_info: cur_images,
            inc_image_info: Vec::new(),
            xms_info,
            no_ultimate_link: false,
            is_fallback: true,
            login_data: session_update,
        };
        proof {
            assert(icon_views(r.inc_icon_info@) =~= Seq::<IconView>::empty());
            assert(image_views(r.inc_image_info@) =~= Seq::<ImageView>::empty());
        }
        return (r, String::new());
    }
    (no_information_result(session_update), String::new())
}

/// The download answer of a query's answer: its flag, message and session,
/// and with a successful answer the current package's file, version, md5,
/// size and links. An error of the query passes through.
pub open spec fn download_answer(q: QueryView) -> (bool, Seq<char>, Seq<char>, Seq<char>, Seq<char>, Seq<char>, LinksView, bool, Option<LoginData>) {
    if !q.ok {
        (
            false,
            q.message,
            Seq::empty(),
            Seq::empty(),
            Seq::empty(),
            Seq::empty(),
            LinksView {
                official1: Seq::empty(),
                official2: Seq::empty(),
                cdn1: Seq::empty(),
                cdn2: Seq::empty(),
            },
            false,
            q.login_data,
        )
    } else {
        (
            true,
            q.message,
            q.cur_rom_info.file_name,
            q.cur_rom_info.version,
            q.cur_rom_info.md5,
            q.cur_rom_info.file_size,
            LinksView {
                official1: q.cur_rom_info.official1_download,
                official2: q.cur_rom_info.official2_download,
                cdn1: q.cur_rom_info.cdn1_download,
                cdn2: q.cur_rom_info.cdn2_download,
            },
            q.no_ultimate_link,
            q.login_data,
        )
    }
}

pub open spec fn download_view(d: RomDownloadResult) -> (bool, Seq<char>, Seq<char>, Seq<char>, Seq<char>, Seq<char>, LinksView, bool, Option<LoginData>) {
    (d.ok, d.message@, d.file_name@, d.version@, d.md5@, d.file_size@, d.links@, d.no_ultimate_link, d.login_data)
}

/// The download links of a query, from the query's answer.
pub fn fetch_rom_download_links(answer: Result<QueryResult, String>) -> (r: Result<RomDownloadResult, String>)
    ensures
        match answer {
            Err(e) => r matches Err(f) && f@ == e@,
            Ok(q) => r matches Ok(d) && download_view(d) == download_answer(q@),
        },
{
    let result = match answer {
        Err(e) => {
            return Err(e);
        },
        Ok(q) => q,
    };
    if !result.ok {
        return Ok(
            RomDownloadResult {
                ok: false,
                message: result.message,
                file_name: String::new(),
                version: String::new(),
                md5: String::new(),
                file_size: String::new(),
                links: DownloadLinks {
                    official1: String::new(),
                    official2: String::new(),
                    cdn1: String::new(),
                    cdn2: String::new(),
                },
                no_ultimate_link: false,
                login_data: result.login_data,
            },
        );
    }
    let info = result.cur_rom_info;
    Ok(
        RomDownloadResult {
            ok: true,
            message: result.message,
            file_name: info.file_name,
            version: info.version,
            md5: info.md5,
            file_size: info.file_size,
            links: DownloadLinks {
                official1: info.official1_download,
                official2: info.official2_download,
                cdn1: info.cdn1_download,
                cdn2: info.cdn2_download,
            },
            no_ultimate_link: result.no_ultimate_link,
            login_data: result.login_data,
        },
    )
}


/// The value of a key in an address's query: that of the first pair with
/// the key, when the address parses and the value is not empty.
pub open spec fn query_param_spec(url: Seq<char>, key: Seq<char>) -> Option<Seq<char>> {
    match parsed_url(url) {
        None => None,
        Some(u) => match first_value_of(u.pairs, seq![key]) {
            Some(v) => if v.len() > 0 {
                Some(v)
            } else {
                None
            },
            None => None,
        },
    }
}

pub fn query_param(url_text: &str, key: &str) -> (r: Option<String>)
    ensures
        opt_seq(r) == query_param_spec(url_text@, key@),
{
    let url = match parse_url(url_text) {
        Some(u) => u,
        None => {
            return None;
        },
    };
    let mut keys: Vec<&str> = Vec::new();
    keys.push(key);
    proof {
        assert(str_views(keys@) =~= seq![key@]);
    }
    match first_value(&url.pairs, keys.as_slice()) {
        Some(v) => if chars_of(v.as_str()).len() > 0 {
            Some(v)
        } else {
            None
        },
        None => None,
    }
}

} // verus!

//! What the update server answers, mapped to what the bot shows: the
//! gentle notice, the change logs with their icons and images, the
//! system-app updates, and the metadata of an OTA package.
use vstd::prelude::*;
use crate::music_text::{find_from, find_char_from, lemma_find_from_bounds, split_lines};
use crate::text::{chars_of, replace_all, replace_spec, string_of, sub_vec, trim_chars, trim_spec, views};
use crate::num::{int_text, push_i64};
use crate::rom_core::{image_link, image_link_spec, kmp_nullable_string, IconInfoData, ImageInfoData, RomInfoData, XmsAppInfo, XmsInfoData};
use crate::rom_links::{links_spec, official_of, opt_str, segment_spec, DownloadLinks, OfficialPath, ResolvedDownloadPath, ResolvedView};
use crate::hls::{find_seq_from, find_seq_from_exec, lemma_find_seq_from_bounds};
use crate::text::{contains_seq, contains_str, occurs_at, vec_views, join_spec, split_once, split_once_spec, has_prefix, starts_with_str};
use crate::urlparts::{first_value, first_value_of, pair_views, str_views};
use crate::num::{parse_i64, parse_i64_spec};
use crate::text::{is_whitespace, is_ws, lemma_trim_end_take, trim_end_spec};
use crate::rom_links::{resolve_xms_download_url, xms_url_spec};

verus! {

/// A missing text read as empty.
pub open spec fn or_empty(o: Option<Seq<char>>) -> Seq<char> {
    match o {
        Some(t) => t,
        None => Seq::empty(),
    }
}

/// An optional string by its view.
pub open spec fn opt_seq(o: Option<String>) -> Option<Seq<char>> {
    match o {
        Some(t) => Some(t@),
        None => None,
    }
}

/// The string, or an empty one where it is missing.
pub fn owned_or_empty(o: &Option<String>) -> (r: String)
    ensures
        r@ == or_empty(opt_seq(*o)),
{
    match o {
        Some(t) => t.clone(),
        None => String::new(),
    }
}

/// A system app as the update server lists it.
#[derive(Debug, Clone, Default)]
pub struct XmsApkInfo {
    pub name: Option<String>,
    pub pack_name: Option<String>,
    pub last_ver_code: Option<String>,
    pub file_name: Option<String>,
    pub md5: Option<String>,
    pub size: Option<i64>,
    pub download_urls: Vec<String>,
}

/// The system apps of an update, with the mirrors that serve them.
#[derive(Debug, Clone, Default)]
pub struct XmsDto {
    pub apk_lists: Vec<XmsApkInfo>,
    pub mirror_list: Vec<String>,
}

/// A listed system app as plain values.
pub struct ApkView {
    pub name: Option<Seq<char>>,
    pub pack_name: Option<Seq<char>>,
    pub last_ver_code: Option<Seq<char>>,
    pub file_name: Option<Seq<char>>,
    pub md5: Option<Seq<char>>,
    pub size: Option<i64>,
    pub download_urls: Seq<Seq<char>>,
}

impl View for XmsApkInfo {
    type V = ApkView;

    open spec fn view(&self) -> ApkView {
        ApkView {
            name: opt_seq(self.name),
            pack_name: opt_seq(self.pack_name),
            last_ver_code: opt_seq(self.last_ver_code),
            file_name: opt_seq(self.file_name),
            md5: opt_seq(self.md5),
            size: self.size,
            download_urls: views(self.download_urls@),
        }
    }
}

/// A system app update as plain values.
pub struct AppView {
    pub name: Seq<char>,
    pub pack_name: Seq<char>,
    pub version_code: Seq<char>,
    pub file_name: Seq<char>,
    pub file_size: Seq<char>,
    pub md5: Seq<char>,
    pub download_urls: Seq<Seq<char>>,
}

impl View for XmsAppInfo {
    type V = AppView;

    open spec fn view(&self) -> AppView {
        AppView {
            name: self.name@,
            pack_name: self.pack_name@,
            version_code: self.version_code@,
            file_name: self.file_name@,
            file_size: self.file_size@,
            md5: self.md5@,
            download_urls: views(self.download_urls@),
        }
    }
}

/// The download addresses of an app that resolve, in their order.
pub open spec fn xms_urls(raws: Seq<Seq<char>>, mirrors: Seq<Seq<char>>) -> Seq<Seq<char>>
    decreases raws.len(),
{
    if raws.len() == 0 {
        Seq::empty()
    } else {
        let prev = xms_urls(raws.drop_last(), mirrors);
        match xms_url_spec(raws.last(), mirrors) {
            Some(u) => prev.push(u),
            None => prev,
        }
    }
}

/// An app update as the bot shows it: missing texts empty, the size in
/// decimal, the addresses resolved against the mirrors.
pub open spec fn app_of(apk: ApkView, mirrors: Seq<Seq<char>>) -> AppView {
    AppView {
        name: or_empty(apk.name),
        pack_name: or_empty(apk.pack_name),
        version_code: or_empty(apk.last_ver_code),
        file_name: or_empty(apk.file_name),
        file_size: match apk.size {
            Some(n) => int_text(n as int),
            None => Seq::empty(),
        },
        md5: or_empty(apk.md5),
        download_urls: xms_urls(apk.download_urls, mirrors),
    }
}

pub open spec fn app_views(apps: Seq<XmsAppInfo>) -> Seq<AppView> {
    apps.map_values(|a: XmsAppInfo| a@)
}

pub open spec fn xms_apps_spec(apks: Seq<ApkView>, mirrors: Seq<Seq<char>>) -> Seq<AppView> {
    apks.map_values(|a: ApkView| app_of(a, mirrors))
}

fn resolve_urls(raws: &Vec<String>, mirrors: &Vec<String>) -> (r: Vec<String>)
    ensures
        views(r@) == xms_urls(views(raws@), views(mirrors@)),
{
    let mut out: Vec<String> = Vec::new();
    let mut i: usize = 0;
    while i < raws.len()
        invariant
            i <= raws.len(),
            views(out@) == xms_urls(views(raws@).take(i as int), views(mirrors@)),
        decreases raws.len() - i,
    {
        let ghost before = views(out@);
        proof {
            assert(views(raws@).take(i + 1).drop_last() =~= views(raws@).take(i as int));
            assert(views(raws@).take(i + 1).last() == raws@[i as int]@);
        }
        match resolve_xms_download_url(raws[i].as_str(), mirrors.as_slice()) {
            Some(u) => {
                out.push(u);
                proof {
                    assert(views(out@) =~= before.push(u@));
                }
            },
            None => {},
        }
        i = i + 1;
    }
    proof {
        assert(views(raws@).take(raws.len() as int) =~= views(raws@));
    }
    out
}

/// The app updates of a listing, in its order.
pub fn map_xms_apps(dto: XmsDto) -> (r: Vec<XmsAppInfo>)
    ensures
        app_views(r@) == xms_apps_spec(dto.apk_lists@.map_values(|a: XmsApkInfo| a@), views(dto.mirror_list@)),
{
    let ghost target = xms_apps_spec(dto.apk_lists@.map_values(|a: XmsApkInfo| a@), views(dto.mirror_list@));
    let mut out: Vec<XmsAppInfo> = Vec::new();
    let mut i: usize = 0;
    while i < dto.apk_lists.len()
        invariant
            i <= dto.apk_lists.len(),
            target == xms_apps_spec(dto.apk_lists@.map_values(|a: XmsApkInfo| a@), views(dto.mirror_list@)),
            app_views(out@) == target.take(i as int),
        decreases dto.apk_lists.len() - i,
    {
        let apk = &dto.apk_lists[i];
        let urls = resolve_urls(&apk.download_urls, &dto.mirror_list);
        let mut size_text: Vec<char> = Vec::new();
        match apk.size {
            Some(n) => push_i64(&mut size_text, n),
            None => {},
        }
        let app = XmsAppInfo {
            name: owned_or_empty(&apk.name),
            pack_name: owned_or_empty(&apk.pack_name),
            version_code: owned_or_empty(&apk.last_ver_code),
            file_name: owned_or_empty(&apk.file_name),
            file_size: string_of(&size_text),
            md5: owned_or_empty(&apk.md5),
            download_urls: urls,
        };
        let ghost before = app_views(out@);
        out.push(app);
        proof {
            assert(app_views(out@) =~= before.push(app@));
            assert(app@ == target[i as int]);
            assert(target.take(i + 1) =~= target.take(i as int).push(target[i as int]));
        }
        i = i + 1;
    }
    proof {
        assert(target.take(dto.apk_lists.len() as int) =~= target);
    }
    out
}

/// The text with each `<…>` removed, leftmost first, up to a `<` that no
/// `>` follows.
pub open spec fn strip_angle_tags(s: Seq<char>) -> Seq<char>
    decreases s.len(),
{
    let i = find_from(s, '<', 0);
    if i >= s.len() {
        s
    } else {
        let j = find_from(s, '>', i);
        if j >= s.len() {
            s
        } else {
            proof {
                lemma_find_from_bounds(s, '<', 0);
                lemma_find_from_bounds(s, '>', i);
            }
            strip_angle_tags(s.take(i) + s.skip(j + 1))
        }
    }
}

/// The lines of a text as `str::lines` gives them: split at `\n`, a `\r`
/// before the `\n` dropped, no line after a final `\n`.
pub open spec fn text_lines(s: Seq<char>) -> Seq<Seq<char>>
    decreases s.len(),
{
    if s.len() == 0 {
        Seq::empty()
    } else {
        let j = find_from(s, '\n', 0);
        if j >= s.len() {
            seq![s]
        } else {
            proof {
                lemma_find_from_bounds(s, '\n', 0);
            }
            let line = s.take(j);
            let line = if line.len() > 0 && line.last() == '\r' {
                line.drop_last()
            } else {
                line
            };
            seq![line] + text_lines(s.skip(j + 1))
        }
    }
}

/// The lines after the first.
pub open spec fn after_first(ls: Seq<Seq<char>>) -> Seq<Seq<char>> {
    if ls.len() == 0 {
        Seq::empty()
    } else {
        ls.skip(1)
    }
}

/// The lines after the first, joined with line breaks.
fn join_after_first(lines: &Vec<Vec<char>>) -> (r: Vec<char>)
    ensures
        r@ == crate::text::join_spec(after_first(crate::text::vec_views(lines@)), "\n"@),
{
    let ghost lv = crate::text::vec_views(lines@);
    let mut rest: Vec<Vec<char>> = Vec::new();
    if lines.len() > 0 {
        let mut k: usize = 1;
        proof {
            assert(crate::text::vec_views(rest@) =~= lv.subrange(1, 1));
        }
        while k < lines.len()
            invariant
                1 <= k <= lines.len(),
                lv == crate::text::vec_views(lines@),
                crate::text::vec_views(rest@) == lv.subrange(1, k as int),
            decreases lines.len() - k,
        {
            let line = sub_vec(&lines[k], 0, lines[k].len());
            proof {
                assert(line@ =~= lv[k as int]);
            }
            let ghost r0 = crate::text::vec_views(rest@);
            rest.push(line);
            proof {
                assert(crate::text::vec_views(rest@) =~= r0.push(line@));
                assert(crate::text::vec_views(rest@) =~= lv.subrange(1, k + 1));
            }
            k = k + 1;
        }
        proof {
            assert(lv.skip(1) =~= lv.subrange(1, lines.len() as int));
        }
    } else {
        proof {
            assert(crate::text::vec_views(rest@) =~= Seq::<Seq<char>>::empty());
        }
    }
    crate::text::join_vecs(&rest, "\n")
}

/// The gentle notice as text: list items as `· ` lines, paragraphs as
/// lines, spaces for `&nbsp;`, other tags removed; then trimmed, and its
/// first line (the title) left out.
pub open spec fn clean_gentle_spec(html: Seq<char>) -> Seq<char> {
    let t = replace_spec(html, "<li>"@, "\n· "@);
    let t = replace_spec(t, "</li>"@, Seq::empty());
    let t = replace_spec(t, "<p>"@, "\n"@);
    let t = replace_spec(t, "</p>"@, Seq::empty());
    let t = replace_spec(t, "&nbsp;"@, " "@);
    let t = replace_spec(t, "&#160;"@, Seq::empty());
    let lines = text_lines(trim_spec(strip_angle_tags(t)));
    crate::text::join_spec(after_first(lines), "\n"@)
}

fn strip_angle_tags_exec(v: Vec<char>) -> (r: Vec<char>)
    ensures
        r@ == strip_angle_tags(v@),
{
    let mut t = v;
    loop
        invariant
            strip_angle_tags(t@) == strip_angle_tags(v@),
        decreases t@.len(),
    {
        let i = find_char_from(&t, '<', 0);
        if i >= t.len() {
            return t;
        }
        let j = find_char_from(&t, '>', i);
        if j >= t.len() {
            return t;
        }
        proof {
            lemma_find_from_bounds(t@, '<', 0);
            lemma_find_from_bounds(t@, '>', i as int);
        }
        let mut next = sub_vec(&t, 0, i);
        let tail = sub_vec(&t, j + 1, t.len());
        crate::text::extend_chars(&mut next, &tail);
        proof {
            assert(next@ =~= t@.take(i as int) + t@.skip(j + 1));
        }
        t = next;
    }
}

fn text_lines_exec(v: &[char]) -> (r: Vec<Vec<char>>)
    ensures
        crate::text::vec_views(r@) == text_lines(v@),
{
    let mut out: Vec<Vec<char>> = Vec::new();
    let mut i: usize = 0;
    proof {
        assert(v@.skip(0) =~= v@);
        assert(crate::text::vec_views(out@) + text_lines(v@) =~= text_lines(v@));
    }
    while i < v.len()
        invariant
            i <= v.len(),
            crate::text::vec_views(out@) + text_lines(v@.skip(i as int)) == text_lines(v@),
        decreases v.len() - i,
    {
        let j = find_char_from(v, '\n', i);
        let ghost rest = v@.skip(i as int);
        let ghost o0 = crate::text::vec_views(out@);
        proof {
            crate::music_text::lemma_find_shift(v@, '\n', i as int);
            lemma_find_from_bounds(rest, '\n', 0);
        }
        if j >= v.len() {
            let line = sub_vec(v, i, v.len());
            out.push(line);
            proof {
                assert(line@ =~= rest);
                assert(crate::text::vec_views(out@) =~= o0.push(rest));
                assert(text_lines(rest) == seq![rest]);
                assert(rest.skip(rest.len() as int) =~= Seq::<char>::empty());
                assert(v@.skip(v@.len() as int) =~= Seq::<char>::empty());
                assert(crate::text::vec_views(out@) + text_lines(v@.skip(v@.len() as int)) =~= o0
                    + text_lines(rest));
            }
            i = v.len();
        } else {
            let mut end = j;
            if end > i && v[end - 1] == '\r' {
                end = end - 1;
            }
            let line = sub_vec(v, i, end);
            out.push(line);
            proof {
                let jj = find_from(rest, '\n', 0);
                assert(jj == j - i);
                let l0 = rest.take(jj);
                if l0.len() > 0 && l0.last() == '\r' {
                    assert(line@ =~= l0.drop_last());
                } else {
                    assert(line@ =~= l0);
                }
                assert(rest.skip(jj + 1) =~= v@.skip(j + 1));
                assert(crate::text::vec_views(out@) + text_lines(v@.skip(j + 1)) =~= o0
                    + text_lines(rest));
            }
            i = j + 1;
        }
    }
    proof {
        assert(v@.skip(i as int) =~= Seq::<char>::empty());
        assert(crate::text::vec_views(out@) + Seq::<Seq<char>>::empty() =~= crate::text::vec_views(
            out@,
        ));
    }
    out
}

pub fn clean_gentle(html: &str) -> (r: String)
    ensures
        r@ == clean_gentle_spec(html@),
{
    proof {
        reveal_strlit("<li>");
        reveal_strlit("</li>");
        reveal_strlit("<p>");
        reveal_strlit("</p>");
        reveal_strlit("&nbsp;");
        reveal_strlit("&#160;");
        reveal_strlit("");
        assert(""@ =~= Seq::<char>::empty());
    }
    let v = chars_of(html);
    let t = replace_all(&v, "<li>", "\n· ");
    let t = replace_all(&t, "</li>", "");
    let t = replace_all(&t, "<p>", "\n");
    let t = replace_all(&t, "</p>", "");
    let t = replace_all(&t, "&nbsp;", " ");
    let t = replace_all(&t, "&#160;", "");
    let stripped = strip_angle_tags_exec(t);
    let trimmed = trim_chars(&stripped);
    let lines = text_lines_exec(&trimmed);
    let joined = join_after_first(&lines);
    string_of(&joined)
}


/// A picture of a changelog entry, as the server lists it.
#[derive(Debug, Clone, Default)]
pub struct ChangelogImage {
    pub path: String,
    pub h: String,
    pub w: String,
}

/// A changelog entry: its text and its pictures.
#[derive(Debug, Clone, Default)]
pub struct ChangelogItem {
    pub txt: String,
    pub image: Vec<ChangelogImage>,
}

/// The entries of one changelog category, in the server's order.
#[derive(Debug, Clone, Default)]
pub struct ChangelogGroup {
    pub category: String,
    pub items: Vec<ChangelogItem>,
}

/// The notice the server shows above a changelog.
#[derive(Debug, Clone, Default)]
pub struct GentleNotice {
    pub text: String,
}

/// What the server says of the system-app updates.
#[derive(Debug, Clone, Default)]
pub struct XmsUpdateInfo {
    pub has_xms_update: i64,
    pub lst_ver: Option<String>,
    pub pkg_cnt: i64,
    pub cur_ver: Option<String>,
    pub prio: Option<i64>,
    pub pkgs: Vec<String>,
    pub gentle_notice: Option<GentleNotice>,
    pub change_log: Vec<ChangelogGroup>,
}

pub struct PictureView {
    pub path: Seq<char>,
    pub h: Seq<char>,
    pub w: Seq<char>,
}

impl View for ChangelogImage {
    type V = PictureView;

    open spec fn view(&self) -> PictureView {
        PictureView { path: self.path@, h: self.h@, w: self.w@ }
    }
}

pub struct EntryView {
    pub txt: Seq<char>,
    pub images: Seq<PictureView>,
}

impl View for ChangelogItem {
    type V = EntryView;

    open spec fn view(&self) -> EntryView {
        EntryView { txt: self.txt@, images: self.image@.map_values(|i: ChangelogImage| i@) }
    }
}

pub struct GroupView {
    pub category: Seq<char>,
    pub items: Seq<EntryView>,
}

impl View for ChangelogGroup {
    type V = GroupView;

    open spec fn view(&self) -> GroupView {
        GroupView { category: self.category@, items: self.items@.map_values(|i: ChangelogItem| i@) }
    }
}

pub open spec fn group_views(gs: Seq<ChangelogGroup>) -> Seq<GroupView> {
    gs.map_values(|g: ChangelogGroup| g@)
}

/// An image entry as plain values.
pub struct ImageView {
    pub title: Seq<char>,
    pub changelog: Seq<char>,
    pub image_url: Seq<char>,
    pub image_width: Option<i64>,
    pub image_height: Option<i64>,
}

impl View for ImageInfoData {
    type V = ImageView;

    open spec fn view(&self) -> ImageView {
        ImageView {
            title: self.title@,
            changelog: self.changelog@,
            image_url: self.image_url@,
            image_width: self.image_width,
            image_height: self.image_height,
        }
    }
}

pub open spec fn image_views(v: Seq<ImageInfoData>) -> Seq<ImageView> {
    v.map_values(|i: ImageInfoData| i@)
}

/// An entry shown with its first picture: the picture's address on the
/// mirror, and its width and height where they read as numbers.
pub open spec fn image_of(category: Seq<char>, it: EntryView, mirror: Seq<char>) -> ImageView {
    let first = if it.images.len() > 0 {
        Some(it.images[0])
    } else {
        None
    };
    ImageView {
        title: category,
        changelog: it.txt,
        image_url: image_link_spec(
            mirror,
            match first {
                Some(p) => Some(p.path),
                None => None,
            },
        ),
        image_width: match first {
            Some(p) => parse_i64_spec(p.w),
            None => None,
        },
        image_height: match first {
            Some(p) => parse_i64_spec(p.h),
            None => None,
        },
    }
}

/// Every entry of every category as an image entry, in order.
pub open spec fn all_images(gs: Seq<GroupView>, mirror: Seq<char>) -> Seq<ImageView>
    decreases gs.len(),
{
    if gs.len() == 0 {
        Seq::empty()
    } else {
        let g = gs.last();
        all_images(gs.drop_last(), mirror) + g.items.map_values(
            |it: EntryView| image_of(g.category, it, mirror),
        )
    }
}

/// The lines an entry adds to a changelog: its text without trailing
/// whitespace and a line break, or nothing for a blank text.
pub open spec fn items_log(items: Seq<EntryView>) -> Seq<char>
    decreases items.len(),
{
    if items.len() == 0 {
        Seq::empty()
    } else {
        let t = trim_end_spec(items.last().txt);
        items_log(items.drop_last()) + if t.len() == 0 {
            Seq::empty()
        } else {
            t + "\n"@
        }
    }
}

/// A category in a changelog: its name on a line (when it has one), its
/// entries, then a blank line.
pub open spec fn group_log(g: GroupView) -> Seq<char> {
    (if g.category.len() > 0 {
        g.category + "\n"@
    } else {
        Seq::empty()
    }) + items_log(g.items) + "\n"@
}

pub open spec fn groups_log(gs: Seq<GroupView>) -> Seq<char>
    decreases gs.len(),
{
    if gs.len() == 0 {
        Seq::empty()
    } else {
        groups_log(gs.drop_last()) + group_log(gs.last())
    }
}

/// A changelog as text: the categories one after another, trailing
/// whitespace removed.
pub open spec fn changelog_text(gs: Seq<GroupView>) -> Seq<char> {
    trim_end_spec(groups_log(gs))
}

fn trim_end_chars(v: &[char]) -> (r: Vec<char>)
    ensures
        r@ == trim_end_spec(v@),
{
    let mut b: usize = v.len();
    while b > 0 && is_whitespace(v[b - 1])
        invariant
            b <= v.len(),
            forall|j: int| b <= j < v.len() ==> is_ws(#[trigger] v@[j]),
        decreases b,
    {
        b = b - 1;
    }
    proof {
        lemma_trim_end_take(v@, b as int);
        if b > 0 {
            assert(!is_ws(v@.take(b as int).last()));
        }
    }
    sub_vec(v, 0, b)
}

fn push_group_log(out: &mut Vec<char>, g: &ChangelogGroup)
    ensures
        final(out)@ == old(out)@ + group_log(g@),
{
    proof {
        reveal_strlit("\n");
        assert("\n"@ =~= seq!['\n']);
    }
    let ghost start = out@;
    let cv = chars_of(g.category.as_str());
    if cv.len() > 0 {
        crate::text::extend_chars(out, &cv);
        out.push('\n');
    }
    let ghost head = out@;
    proof {
        assert(head =~= start + (if g@.category.len() > 0 {
            g@.category + "\n"@
        } else {
            Seq::empty()
        }));
    }
    let mut i: usize = 0;
    while i < g.items.len()
        invariant
            i <= g.items.len(),
            out@ == head + items_log(g@.items.take(i as int)),
        decreases g.items.len() - i,
    {
        let tv = chars_of(g.items[i].txt.as_str());
        let t = trim_end_chars(&tv);
        let ghost before = out@;
        if t.len() > 0 {
            crate::text::extend_chars(out, &t);
            out.push('\n');
        }
        proof {
            let its = g@.items.take(i + 1);
            assert(its.drop_last() =~= g@.items.take(i as int));
            assert(its.last() == g.items@[i as int]@);
            if t.len() > 0 {
                reveal_strlit("\n");
                assert(out@ =~= before + (t@ + "\n"@));
            } else {
                assert(out@ =~= before + Seq::<char>::empty());
            }
        }
        i = i + 1;
    }
    proof {
        assert(g@.items.take(g.items.len() as int) =~= g@.items);
    }
    out.push('\n');
    proof {
        assert(out@ =~= start + group_log(g@));
    }
}

/// The changelog text of the categories.
pub fn changelog_of(gs: &Vec<ChangelogGroup>) -> (r: String)
    ensures
        r@ == changelog_text(group_views(gs@)),
{
    let mut out: Vec<char> = Vec::new();
    let mut k: usize = 0;
    while k < gs.len()
        invariant
            k <= gs.len(),
            out@ == groups_log(group_views(gs@).take(k as int)),
        decreases gs.len() - k,
    {
        push_group_log(&mut out, &gs[k]);
        proof {
            let t = group_views(gs@).take(k + 1);
            assert(t.drop_last() =~= group_views(gs@).take(k as int));
        }
        k = k + 1;
    }
    proof {
        assert(group_views(gs@).take(gs.len() as int) =~= group_views(gs@));
    }
    let t = trim_end_chars(&out);
    string_of(&t)
}

fn parse_opt_i64(t: &String) -> (r: Option<i64>)
    ensures
        r == parse_i64_spec(t@),
{
    let v = chars_of(t.as_str());
    parse_i64(&v)
}

fn push_group_images(out: &mut Vec<ImageInfoData>, g: &ChangelogGroup, mirror: &str)
    ensures
        image_views(final(out)@) == image_views(old(out)@) + g@.items.map_values(
            |it: EntryView| image_of(g@.category, it, mirror@),
        ),
{
    let ghost start = image_views(out@);
    let ghost target = g@.items.map_values(|it: EntryView| image_of(g@.category, it, mirror@));
    let mut i: usize = 0;
    while i < g.items.len()
        invariant
            i <= g.items.len(),
            target == g@.items.map_values(|it: EntryView| image_of(g@.category, it, mirror@)),
            image_views(out@) == start + target.take(i as int),
        decreases g.items.len() - i,
    {
        let item = &g.items[i];
        let entry = if item.image.len() > 0 {
            let p = &item.image[0];
            ImageInfoData {
                title: g.category.clone(),
                changelog: item.txt.clone(),
                image_url: image_link(mirror, Some(p.path.as_str())),
                image_width: parse_opt_i64(&p.w),
                image_height: parse_opt_i64(&p.h),
            }
        } else {
            ImageInfoData {
                title: g.category.clone(),
                changelog: item.txt.clone(),
                image_url: image_link(mirror, None),
                image_width: None,
                image_height: None,
            }
        };
        let ghost before = image_views(out@);
        out.push(entry);
        proof {
            assert(image_views(out@) =~= before.push(entry@));
            assert(g@.items[i as int] == item@);
            assert(entry@ == target[i as int]);
            assert(target.take(i + 1) =~= target.take(i as int).push(target[i as int]));
        }
        i = i + 1;
    }
    proof {
        assert(target.take(g.items.len() as int) =~= target);
    }
}

/// Every entry of the categories as an image entry, pictures on the mirror.
pub fn images_of(gs: &Vec<ChangelogGroup>, mirror: &str) -> (r: Vec<ImageInfoData>)
    ensures
        image_views(r@) == all_images(group_views(gs@), mirror@),
{
    let mut out: Vec<ImageInfoData> = Vec::new();
    let mut k: usize = 0;
    while k < gs.len()
        invariant
            k <= gs.len(),
            image_views(out@) == all_images(group_views(gs@).take(k as int), mirror@),
        decreases gs.len() - k,
    {
        push_group_images(&mut out, &gs[k], mirror);
        proof {
            let t = group_views(gs@).take(k + 1);
            assert(t.drop_last() =~= group_views(gs@).take(k as int));
        }
        k = k + 1;
    }
    proof {
        assert(group_views(gs@).take(gs.len() as int) =~= group_views(gs@));
    }
    out
}

/// A notice's text, or empty where there is none.
pub open spec fn notice_text(n: Option<GentleNotice>) -> Seq<char> {
    match n {
        Some(g) => g.text@,
        None => Seq::empty(),
    }
}

/// The system-app updates as plain values.
pub struct XmsInfoView {
    pub has_update: bool,
    pub cur_ver: Seq<char>,
    pub lst_ver: Seq<char>,
    pub pkg_cnt: i64,
    pub prio: i64,
    pub apps: Seq<AppView>,
    pub gentle_notice: Seq<char>,
    pub changelog_items: Seq<ImageView>,
    pub changelog_text: Seq<char>,
}

impl View for XmsInfoData {
    type V = XmsInfoView;

    open spec fn view(&self) -> XmsInfoView {
        XmsInfoView {
            has_update: self.has_update,
            cur_ver: self.cur_ver@,
            lst_ver: self.lst_ver@,
            pkg_cnt: self.pkg_cnt,
            prio: self.prio,
            apps: app_views(self.apps@),
            gentle_notice: self.gentle_notice@,
            changelog_items: image_views(self.changelog_items@),
            changelog_text: self.changelog_text@,
        }
    }
}

/// The system-app updates as the bot shows them: with no report only the
/// apps; else the report's flags and versions, its notice cleaned, its
/// change log as image entries and as text.
pub open spec fn xms_info_spec(info: Option<XmsUpdateInfo>, mirror: Seq<char>, apps: Seq<AppView>) -> XmsInfoView {
    match info {
        None => XmsInfoView {
            has_update: false,
            cur_ver: Seq::empty(),
            lst_ver: Seq::empty(),
            pkg_cnt: 0,
            prio: 0,
            apps,
            gentle_notice: Seq::empty(),
            changelog_items: Seq::empty(),
            changelog_text: Seq::empty(),
        },
        Some(x) => XmsInfoView {
            has_update: x.has_xms_update == 1,
            cur_ver: or_empty(opt_seq(x.cur_ver)),
            lst_ver: or_empty(opt_seq(x.lst_ver)),
            pkg_cnt: x.pkg_cnt,
            prio: match x.prio {
                Some(p) => p,
                None => 0,
            },
            apps,
            gentle_notice: clean_gentle_spec(notice_text(x.gentle_notice)),
            changelog_items: all_images(group_views(x.change_log@), mirror),
            changelog_text: changelog_text(group_views(x.change_log@)),
        },
    }
}

fn notice_of(n: &Option<GentleNotice>) -> (r: &str)
    ensures
        r@ == notice_text(*n),
{
    proof {
        reveal_strlit("");
    }
    match n {
        Some(g) => g.text.as_str(),
        None => "",
    }
}

pub fn map_xms_info(info: Option<&XmsUpdateInfo>, image_mirror: &str, apps: Vec<XmsAppInfo>) -> (r: XmsInfoData)
    ensures
        r@ == xms_info_spec(
            match info {
                Some(x) => Some(*x),
                None => None,
            },
            image_mirror@,
            app_views(apps@),
        ),
{
    match info {
        None => {
            let r = XmsInfoData {
                has_update: false,
                cur_ver: String::new(),
                lst_ver: String::new(),
                pkg_cnt: 0,
                prio: 0,
                apps,
                gentle_notice: String::new(),
                changelog_items: Vec::new(),
                changelog_text: String::new(),
            };
            proof {
                assert(image_views(r.changelog_items@) =~= Seq::<ImageView>::empty());
            }
            r
        },
        Some(x) => {
            let gentle_notice = clean_gentle(notice_of(&x.gentle_notice));
            let changelog_items = images_of(&x.change_log, image_mirror);
            let changelog_text = changelog_of(&x.change_log);
            XmsInfoData {
                has_update: x.has_xms_update == 1,
                cur_ver: owned_or_empty(&x.cur_ver),
                lst_ver: owned_or_empty(&x.lst_ver),
                pkg_cnt: x.pkg_cnt,
                prio: match x.prio {
                    Some(p) => p,
                    None => 0,
                },
                apps,
                gentle_notice,
                changelog_items,
                changelog_text,
            }
        },
    }
}


/// Where the update server keeps icons and pictures.
#[derive(Debug, Clone, Default)]
pub struct FileMirror {
    pub icon: String,
    pub image: String,
}

/// A ROM package as the update server describes it.
#[derive(Debug, Clone, Default)]
pub struct Rom {
    pub bigversion: Option<String>,
    pub branch: Option<String>,
    pub changelog: Vec<ChangelogGroup>,
    pub codebase: Option<String>,
    pub device: Option<String>,
    pub filename: Option<String>,
    pub filesize: Option<String>,
    pub md5: Option<String>,
    pub osbigversion: Option<String>,
    pub rom_type: Option<String>,
    pub version: Option<String>,
    pub is_beta: i64,
    pub is_gov: i64,
    /// Whether `osbigversion` reads as a number of at least 3, which gives
    /// the changelog its picture layout. The number is a float, so this is
    /// decided where the record is read.
    pub picture_changelog: bool,
}

/// The update server's answer to a ROM query.
#[derive(Debug, Clone, Default)]
pub struct RomInfo {
    pub auth_result: Option<i64>,
    pub current_rom: Option<Rom>,
    pub latest_rom: Option<Rom>,
    pub increment_rom: Option<Rom>,
    pub cross_rom: Option<Rom>,
    /// The icon path of each changelog category, each name once.
    pub icon: Option<Vec<(String, String)>>,
    pub file_mirror: Option<FileMirror>,
    pub gentle_notice: Option<GentleNotice>,
    pub xms_update_info: Option<XmsUpdateInfo>,
}

/// A ROM package as the bot shows it, as plain values.
pub struct RomInfoView {
    pub rom_type: Seq<char>,
    pub device: Seq<char>,
    pub version: Seq<char>,
    pub codebase: Seq<char>,
    pub branch: Seq<char>,
    pub big_version: Seq<char>,
    pub file_name: Seq<char>,
    pub file_size: Seq<char>,
    pub md5: Seq<char>,
    pub is_beta: bool,
    pub is_gov: bool,
    pub official1_download: Seq<char>,
    pub official2_download: Seq<char>,
    pub cdn1_download: Seq<char>,
    pub cdn2_download: Seq<char>,
    pub changelog: Seq<char>,
    pub gentle_notice: Seq<char>,
    pub fingerprint: Seq<char>,
    pub security_patch_level: Seq<char>,
    pub timestamp: Seq<char>,
    pub sdk_level: Seq<char>,
}

impl View for RomInfoData {
    type V = RomInfoView;

    open spec fn view(&self) -> RomInfoView {
        RomInfoView {
            rom_type: self.rom_type@,
            device: self.device@,
            version: self.version@,
            codebase: self.codebase@,
            branch: self.branch@,
            big_version: self.big_version@,
            file_name: self.file_name@,
            file_size: self.file_size@,
            md5: self.md5@,
            is_beta: self.is_beta,
            is_gov: self.is_gov,
            official1_download: self.official1_download@,
            official2_download: self.official2_download@,
            cdn1_download: self.cdn1_download@,
            cdn2_download: self.cdn2_download@,
            changelog: self.changelog@,
            gentle_notice: self.gentle_notice@,
            fingerprint: self.fingerprint@,
            security_patch_level: self.security_patch_level@,
            timestamp: self.timestamp@,
            sdk_level: self.sdk_level@,
        }
    }
}

/// A package with nothing in it.
pub open spec fn empty_rom_view() -> RomInfoView {
    RomInfoView {
        rom_type: Seq::empty(),
        device: Seq::empty(),
        version: Seq::empty(),
        codebase: Seq::empty(),
        branch: Seq::empty(),
        big_version: Seq::empty(),
        file_name: Seq::empty(),
        file_size: Seq::empty(),
        md5: Seq::empty(),
        is_beta: false,
        is_gov: false,
        official1_download: Seq::empty(),
        official2_download: Seq::empty(),
        cdn1_download: Seq::empty(),
        cdn2_download: Seq::empty(),
        changelog: Seq::empty(),
        gentle_notice: Seq::empty(),
        fingerprint: Seq::empty(),
        security_patch_level: Seq::empty(),
        timestamp: Seq::empty(),
        sdk_level: Seq::empty(),
    }
}

pub fn empty_rom_info() -> (r: RomInfoData)
    ensures
        r@ == empty_rom_view(),
{
    RomInfoData {
        rom_type: String::new(),
        device: String::new(),
        version: String::new(),
        codebase: String::new(),
        branch: String::new(),
        big_version: String::new(),
        file_name: String::new(),
        file_size: String::new(),
        md5: String::new(),
        is_beta: false,
        is_gov: false,
        official1_download: String::new(),
        official2_download: String::new(),
        cdn1_download: String::new(),
        cdn2_download: String::new(),
        changelog: String::new(),
        gentle_notice: String::new(),
        fingerprint: String::new(),
        security_patch_level: String::new(),
        timestamp: String::new(),
        sdk_level: String::new(),
    }
}

/// An icon entry as plain values.
pub struct IconView {
    pub changelog: Seq<char>,
    pub icon_name: Seq<char>,
    pub icon_link: Seq<char>,
}

impl View for IconInfoData {
    type V = IconView;

    open spec fn view(&self) -> IconView {
        IconView { changelog: self.changelog@, icon_name: self.icon_name@, icon_link: self.icon_link@ }
    }
}

pub open spec fn icon_views(v: Seq<IconInfoData>) -> Seq<IconView> {
    v.map_values(|i: IconInfoData| i@)
}

/// The pieces of `s[k..]` between the occurrences of `p`, leftmost first,
/// as `str::split` gives them.
pub open spec fn split_from(s: Seq<char>, p: Seq<char>, k: int) -> Seq<Seq<char>>
    decreases s.len() - k,
{
    if p.len() == 0 || k < 0 || k > s.len() {
        Seq::empty()
    } else {
        let i = find_seq_from(s, p, k);
        if i >= s.len() {
            seq![s.subrange(k, s.len() as int)]
        } else {
            proof {
                lemma_find_seq_from_bounds(s, p, k);
            }
            seq![s.subrange(k, i)] + split_from(s, p, i + p.len())
        }
    }
}

/// `s` split at each occurrence of `p`.
pub open spec fn split_spec(s: Seq<char>, p: Seq<char>) -> Seq<Seq<char>> {
    split_from(s, p, 0)
}

fn split_str(v: &[char], sep: &str) -> (r: Vec<Vec<char>>)
    requires
        sep@.len() > 0,
    ensures
        vec_views(r@) == split_spec(v@, sep@),
{
    let pv = chars_of(sep);
    let mut out: Vec<Vec<char>> = Vec::new();
    let mut k: usize = 0;
    loop
        invariant
            k <= v.len(),
            pv@ == sep@,
            pv@.len() > 0,
            vec_views(out@) + split_from(v@, pv@, k as int) == split_spec(v@, sep@),
        decreases v.len() - k,
    {
        let i = find_seq_from_exec(v, &pv, k);
        proof {
            lemma_find_seq_from_bounds(v@, pv@, k as int);
        }
        let ghost o0 = vec_views(out@);
        if i >= v.len() {
            let piece = sub_vec(v, k, v.len());
            out.push(piece);
            proof {
                assert(vec_views(out@) =~= o0.push(piece@));
                assert(vec_views(out@) =~= o0 + split_from(v@, pv@, k as int));
            }
            return out;
        }
        let piece = sub_vec(v, k, i);
        out.push(piece);
        proof {
            assert(vec_views(out@) =~= o0.push(piece@));
            assert(o0 + split_from(v@, pv@, k as int) =~= vec_views(out@) + split_from(
                v@,
                pv@,
                i + pv@.len(),
            ));
        }
        k = i + pv.len();
    }
}

/// The first line of a text, or empty.
pub open spec fn first_line(g: Seq<char>) -> Seq<char> {
    let ls = text_lines(g);
    if ls.len() > 0 {
        ls[0]
    } else {
        Seq::empty()
    }
}

/// The lines of a text after the first, joined with line breaks.
pub open spec fn other_lines(g: Seq<char>) -> Seq<char> {
    join_spec(after_first(text_lines(g)), "\n"@)
}

/// The icon path listed for a category name.
pub open spec fn icon_path(icons: Option<Seq<(Seq<char>, Seq<char>)>>, name: Seq<char>) -> Option<Seq<char>> {
    match icons {
        Some(pairs) => first_value_of(pairs, seq![name]),
        None => None,
    }
}

/// A changelog group as an icon entry: named by its first line, its icon
/// on the mirror made `https` (empty without one), its other lines as the
/// text.
pub open spec fn icon_of(g: Seq<char>, icons: Option<Seq<(Seq<char>, Seq<char>)>>, mirror: Seq<char>) -> IconView {
    IconView {
        icon_name: first_line(g),
        icon_link: match icon_path(icons, first_line(g)) {
            Some(p) => replace_spec(mirror, "http://"@, "https://"@) + p,
            None => Seq::empty(),
        },
        changelog: other_lines(g),
    }
}

pub open spec fn icons_spec(groups: Seq<Seq<char>>, icons: Option<Seq<(Seq<char>, Seq<char>)>>, mirror: Seq<char>) -> Seq<IconView> {
    groups.map_values(|g: Seq<char>| icon_of(g, icons, mirror))
}

/// The groups of a changelog text: its paragraphs, none for an empty text.
pub open spec fn log_groups(log: Seq<char>) -> Seq<Seq<char>> {
    if log.len() == 0 {
        Seq::empty()
    } else {
        split_spec(log, "\n\n"@)
    }
}

/// The version shown for a package: HyperOS with the OS version when there
/// is a real one, HyperOS 1.0 for a `816` build, else MIUI.
pub open spec fn big_version_spec(osbig: Seq<char>, big: Seq<char>) -> Seq<char> {
    if osbig.len() > 0 && osbig != ".0"@ && osbig != "0.0"@ {
        "HyperOS "@ + osbig
    } else if contains_seq(big, "816"@) {
        replace_spec(big, "816"@, "HyperOS 1.0"@)
    } else {
        "MIUI "@ + big
    }
}

/// The file name shown for a package: the name up to its first `.zip`,
/// then `.zip`; `null.zip` when there is none.
pub open spec fn file_name_spec(f: Option<Seq<char>>) -> Seq<char> {
    let s = segment_spec(f);
    s.take(find_seq_from(s, ".zip"@, 0)) + ".zip"@
}

pub open spec fn opt_rom_view(o: Option<&ResolvedDownloadPath>) -> Option<ResolvedView> {
    match o {
        Some(d) => Some(d@),
        None => None,
    }
}

pub open spec fn icon_table(icons: Option<Vec<(String, String)>>) -> Option<Seq<(Seq<char>, Seq<char>)>> {
    match icons {
        Some(v) => Some(pair_views(v@)),
        None => None,
    }
}

pub open spec fn mirror_of(m: Option<FileMirror>, icon: bool) -> Seq<char> {
    match m {
        Some(f) => if icon {
            f.icon@
        } else {
            f.image@
        },
        None => Seq::empty(),
    }
}

/// A package as the bot shows it: texts of the record (`null` where
/// missing), its version and file name, its links, its changelog and the
/// cleaned notice of the answer.
pub open spec fn rom_view_spec(recovery: RomInfo, rom: Rom, resolved: Option<ResolvedView>) -> RomInfoView {
    let links = links_spec(opt_seq(rom.version), opt_seq(rom.filename), official_of(resolved));
    RomInfoView {
        rom_type: segment_spec(opt_seq(rom.rom_type)),
        device: segment_spec(opt_seq(rom.device)),
        version: segment_spec(opt_seq(rom.version)),
        codebase: segment_spec(opt_seq(rom.codebase)),
        branch: segment_spec(opt_seq(rom.branch)),
        big_version: big_version_spec(or_empty(opt_seq(rom.osbigversion)), or_empty(opt_seq(rom.bigversion))),
        file_name: file_name_spec(opt_seq(rom.filename)),
        file_size: segment_spec(opt_seq(rom.filesize)),
        md5: segment_spec(opt_seq(rom.md5)),
        is_beta: rom.is_beta == 1,
        is_gov: rom.is_gov == 1,
        official1_download: links.official1,
        official2_download: links.official2,
        cdn1_download: links.cdn1,
        cdn2_download: links.cdn2,
        changelog: changelog_text(group_views(rom.changelog@)),
        gentle_notice: clean_gentle_spec(notice_text(recovery.gentle_notice)),
        fingerprint: Seq::empty(),
        security_patch_level: Seq::empty(),
        timestamp: Seq::empty(),
        sdk_level: Seq::empty(),
    }
}

/// Whether a package is there to show: a record with a `bigversion`.
pub open spec fn rom_present(rom: Option<Rom>) -> bool {
    match rom {
        Some(r) => r.bigversion is Some,
        None => false,
    }
}

/// The icon entries of a package: one per changelog group, unless the
/// changelog has the picture layout.
pub open spec fn rom_icons_spec(recovery: RomInfo, rom: Rom) -> Seq<IconView> {
    if rom.picture_changelog {
        Seq::empty()
    } else {
        icons_spec(
            log_groups(changelog_text(group_views(rom.changelog@))),
            icon_table(recovery.icon),
            mirror_of(recovery.file_mirror, true),
        )
    }
}

/// The image entries of a package: every changelog entry, when the
/// changelog has the picture layout.
pub open spec fn rom_images_spec(recovery: RomInfo, rom: Rom) -> Seq<ImageView> {
    if rom.picture_changelog {
        all_images(group_views(rom.changelog@), mirror_of(recovery.file_mirror, false))
    } else {
        Seq::empty()
    }
}

fn opt_as_str(o: &Option<String>) -> (r: Option<&str>)
    ensures
        opt_str(r) == opt_seq(*o),
{
    match o {
        Some(t) => Some(t.as_str()),
        None => None,
    }
}

fn mirror_text(m: &Option<FileMirror>, icon: bool) -> (r: &str)
    ensures
        r@ == mirror_of(*m, icon),
{
    proof {
        reveal_strlit("");
    }
    match m {
        Some(f) => if icon {
            f.icon.as_str()
        } else {
            f.image.as_str()
        },
        None => "",
    }
}

fn big_version_of(osbig: &Option<String>, big: &Option<String>) -> (r: String)
    ensures
        r@ == big_version_spec(or_empty(opt_seq(*osbig)), or_empty(opt_seq(*big))),
{
    proof {
        reveal_strlit(".0");
        reveal_strlit("0.0");
        reveal_strlit("816");
        reveal_strlit("HyperOS ");
        reveal_strlit("MIUI ");
    }
    let os = owned_or_empty(osbig);
    let b = owned_or_empty(big);
    let ov = chars_of(os.as_str());
    let bv = chars_of(b.as_str());
    if ov.len() > 0 && !crate::text::eq_str(&ov, ".0") && !crate::text::eq_str(&ov, "0.0") {
        crate::text::concat("HyperOS ", os.as_str())
    } else if contains_str(&bv, "816") {
        let r = replace_all(&bv, "816", "HyperOS 1.0");
        string_of(&r)
    } else {
        crate::text::concat("MIUI ", b.as_str())
    }
}

fn file_name_of(filename: &Option<String>) -> (r: String)
    ensures
        r@ == file_name_spec(opt_seq(*filename)),
{
    proof {
        reveal_strlit(".zip");
    }
    let full = kmp_nullable_string(opt_as_str(filename));
    let fv = chars_of(full.as_str());
    let zip = chars_of(".zip");
    let i = find_seq_from_exec(&fv, &zip, 0);
    proof {
        lemma_find_seq_from_bounds(fv@, zip@, 0);
    }
    let mut out = sub_vec(&fv, 0, i);
    crate::text::extend_str(&mut out, ".zip");
    string_of(&out)
}

fn icons_of(groups: &Vec<Vec<char>>, icons: &Option<Vec<(String, String)>>, mirror: &str) -> (r: Vec<IconInfoData>)
    ensures
        icon_views(r@) == icons_spec(vec_views(groups@), icon_table(*icons), mirror@),
{
    proof {
        reveal_strlit("http://");
    }
    let ghost target = icons_spec(vec_views(groups@), icon_table(*icons), mirror@);
    let mv = chars_of(mirror);
    let https_mirror = replace_all(&mv, "http://", "https://");
    let mut out: Vec<IconInfoData> = Vec::new();
    let mut i: usize = 0;
    while i < groups.len()
        invariant
            i <= groups.len(),
            target == icons_spec(vec_views(groups@), icon_table(*icons), mirror@),
            https_mirror@ == replace_spec(mirror@, "http://"@, "https://"@),
            icon_views(out@) == target.take(i as int),
        decreases groups.len() - i,
    {
        let lines = text_lines_exec(&groups[i]);
        let name: Vec<char> = if lines.len() > 0 {
            sub_vec(&lines[0], 0, lines[0].len())
        } else {
            Vec::new()
        };
        let body = join_after_first(&lines);
        let name_s = string_of(&name);
        let link: Vec<char> = match icons {
            Some(pairs) => {
                let mut keys: Vec<&str> = Vec::new();
                keys.push(name_s.as_str());
                proof {
                    assert(str_views(keys@) =~= seq![name_s@]);
                }
                match first_value(pairs, keys.as_slice()) {
                    Some(path) => {
                        let mut l = sub_vec(&https_mirror, 0, https_mirror.len());
                        crate::text::extend_str(&mut l, path.as_str());
                        l
                    },
                    None => Vec::new(),
                }
            },
            None => Vec::new(),
        };
        let entry = IconInfoData { changelog: string_of(&body), icon_name: name_s, icon_link: string_of(&link) };
        let ghost before = icon_views(out@);
        out.push(entry);
        proof {
            let g = vec_views(groups@)[i as int];
            assert(g == groups@[i as int]@);
            if lines.len() > 0 {
                assert(name@ =~= first_line(g));
            } else {
                assert(name@ =~= first_line(g));
            }
            assert(entry@.icon_name == target[i as int].icon_name);
            assert(entry@.changelog == target[i as int].changelog);
            assert(entry@.icon_link == target[i as int].icon_link);
            assert(entry@ == target[i as int]);
            assert(icon_views(out@) =~= before.push(entry@));
            assert(target.take(i + 1) =~= target.take(i as int).push(target[i as int]));
        }
        i = i + 1;
    }
    proof {
        assert(target.take(groups.len() as int) =~= target);
    }
    out
}

/// A package of an answer as the bot shows it, with its icon or image
/// entries; all empty when there is no package or it has no `bigversion`.
pub fn map_rom(recovery: &RomInfo, rom: Option<&Rom>, resolved_download: Option<&ResolvedDownloadPath>) -> (r: (
    RomInfoData,
    Vec<IconInfoData>,
    Vec<ImageInfoData>,
))
    ensures
        match rom {
            Some(x) if x.bigversion is Some => {
                &&& r.0@ == rom_view_spec(*recovery, *x, opt_rom_view(resolved_download))
                &&& icon_views(r.1@) == rom_icons_spec(*recovery, *x)
                &&& image_views(r.2@) == rom_images_spec(*recovery, *x)
            },
            _ => {
                &&& r.0@ == empty_rom_view()
                &&& r.1@.len() == 0
                &&& r.2@.len() == 0
            },
        },
{
    let rom = match rom {
        Some(x) => x,
        None => {
            return (empty_rom_info(), Vec::new(), Vec::new());
        },
    };
    if rom.bigversion.is_none() {
        return (empty_rom_info(), Vec::new(), Vec::new());
    }
    proof {
        reveal_strlit("\n\n");
    }
    let log = changelog_of(&rom.changelog);
    let lv = chars_of(log.as_str());
    let gentle_notice = clean_gentle(notice_of(&recovery.gentle_notice));
    let mut icons: Vec<IconInfoData> = Vec::new();
    let mut images: Vec<ImageInfoData> = Vec::new();
    if rom.picture_changelog {
        images = images_of(&rom.changelog, mirror_text(&recovery.file_mirror, false));
        proof {
            assert(icon_views(icons@) =~= Seq::<IconView>::empty());
        }
    } else {
        let groups: Vec<Vec<char>> = if lv.len() == 0 {
            Vec::new()
        } else {
            split_str(&lv, "\n\n")
        };
        proof {
            assert(vec_views(groups@) =~= log_groups(lv@));
        }
        icons = icons_of(&groups, &recovery.icon, mirror_text(&recovery.file_mirror, true));
        proof {
            assert(image_views(images@) =~= Seq::<ImageView>::empty());
        }
    }
    let links = DownloadLinks::for_rom(
        opt_as_str(&rom.version),
        opt_as_str(&rom.filename),
        OfficialPath::from_resolved(resolved_download),
    );
    let info = RomInfoData {
        rom_type: kmp_nullable_string(opt_as_str(&rom.rom_type)),
        device: kmp_nullable_string(opt_as_str(&rom.device)),
        version: kmp_nullable_string(opt_as_str(&rom.version)),
        codebase: kmp_nullable_string(opt_as_str(&rom.codebase)),
        branch: kmp_nullable_string(opt_as_str(&rom.branch)),
        big_version: big_version_of(&rom.osbigversion, &rom.bigversion),
        file_name: file_name_of(&rom.filename),
        file_size: kmp_nullable_string(opt_as_str(&rom.filesize)),
        md5: kmp_nullable_string(opt_as_str(&rom.md5)),
        is_beta: rom.is_beta == 1,
        is_gov: rom.is_gov == 1,
        official1_download: links.official1,
        official2_download: links.official2,
        cdn1_download: links.cdn1,
        cdn2_download: links.cdn2,
        changelog: log,
        gentle_notice,
        fingerprint: String::new(),
        security_patch_level: String::new(),
        timestamp: String::new(),
        sdk_level: String::new(),
    };
    (info, icons, images)
}


/// The state of one partition in an OTA package's metadata.
#[derive(Debug, Clone, Default)]
pub struct PartitionState {
    pub partition_name: String,
    pub device: Vec<String>,
    pub build: Vec<String>,
    pub version: String,
}

/// The device state an OTA package needs or leaves.
#[derive(Debug, Clone, Default)]
pub struct DeviceState {
    pub device: Vec<String>,
    pub build: Vec<String>,
    pub build_incremental: String,
    pub timestamp: i64,
    pub sdk_level: String,
    pub security_patch_level: String,
    pub partition_state: Vec<PartitionState>,
}

/// The metadata of an OTA package.
#[derive(Debug, Clone, Default)]
pub struct OtaMetadata {
    pub ota_type: i32,
    pub wipe: bool,
    pub downgrade: bool,
    pub property_files: Vec<(String, String)>,
    pub precondition: Option<DeviceState>,
    pub postcondition: Option<DeviceState>,
    pub retrofit_dynamic_partitions: bool,
    pub required_cache: i64,
    pub spl_downgrade: bool,
}

/// The `key=value` entries of a metadata text, in order: each line trimmed,
/// blank lines and `#` comments left out, a line split at its first `=`.
pub open spec fn meta_entries(lines: Seq<Seq<char>>) -> Seq<(Seq<char>, Seq<char>)>
    decreases lines.len(),
{
    if lines.len() == 0 {
        Seq::empty()
    } else {
        let prev = meta_entries(lines.drop_last());
        let t = trim_spec(lines.last());
        if t.len() == 0 || t[0] == '#' {
            prev
        } else {
            match split_once_spec(t, '=') {
                Some(kv) => prev.push(kv),
                None => prev,
            }
        }
    }
}

/// The value of a key: the last entry with it wins.
pub open spec fn meta_get(es: Seq<(Seq<char>, Seq<char>)>, key: Seq<char>) -> Option<Seq<char>>
    decreases es.len(),
{
    if es.len() == 0 {
        None
    } else if es.last().0 == key {
        Some(es.last().1)
    } else {
        meta_get(es.drop_last(), key)
    }
}

/// The value as a list of at most one.
pub open spec fn opt_list(o: Option<Seq<char>>) -> Seq<Seq<char>> {
    match o {
        Some(v) => seq![v],
        None => Seq::empty(),
    }
}

/// A device state as plain values.
pub struct StateView {
    pub device: Seq<Seq<char>>,
    pub build: Seq<Seq<char>>,
    pub build_incremental: Seq<char>,
    pub timestamp: i64,
    pub sdk_level: Seq<char>,
    pub security_patch_level: Seq<char>,
    pub partitions: Seq<(Seq<char>, Seq<Seq<char>>)>,
}

impl View for DeviceState {
    type V = StateView;

    open spec fn view(&self) -> StateView {
        StateView {
            device: views(self.device@),
            build: views(self.build@),
            build_incremental: self.build_incremental@,
            timestamp: self.timestamp,
            sdk_level: self.sdk_level@,
            security_patch_level: self.security_patch_level@,
            partitions: self.partition_state@.map_values(
                |p: PartitionState| (p.partition_name@, views(p.build@)),
            ),
        }
    }
}

pub open spec fn opt_state(o: Option<DeviceState>) -> Option<StateView> {
    match o {
        Some(d) => Some(d@),
        None => None,
    }
}

/// What a metadata text gives: the `ota-type` as its number, the `pre-`
/// state when some key starts with `pre-`, and the `post-` state.
pub open spec fn metadata_spec(text: Seq<char>) -> (i32, Option<StateView>, Option<StateView>) {
    let es = meta_entries(text_lines(text));
    let has_pre = exists|i: int| 0 <= i < es.len() && has_prefix(#[trigger] es[i].0, "pre-"@);
    let ota = meta_get(es, "ota-type"@);
    let ota_type: i32 = if ota == Some("AB"@) {
        1
    } else if ota == Some("BLOCK"@) {
        2
    } else if ota == Some("BRICK"@) {
        3
    } else {
        0
    };
    let pre = if has_pre {
        Some(
            StateView {
                device: opt_list(meta_get(es, "pre-device"@)),
                build: opt_list(meta_get(es, "pre-build"@)),
                build_incremental: or_empty(meta_get(es, "pre-build-incremental"@)),
                timestamp: 0,
                sdk_level: Seq::empty(),
                security_patch_level: Seq::empty(),
                partitions: Seq::empty(),
            },
        )
    } else {
        None
    };
    let post = StateView {
        device: opt_list(meta_get(es, "post-device"@)),
        build: opt_list(meta_get(es, "post-build"@)),
        build_incremental: or_empty(meta_get(es, "post-build-incremental"@)),
        timestamp: match meta_get(es, "post-timestamp"@) {
            Some(t) => match parse_i64_spec(t) {
                Some(n) => n,
                None => 0,
            },
            None => 0,
        },
        sdk_level: or_empty(meta_get(es, "post-sdk-level"@)),
        security_patch_level: or_empty(meta_get(es, "post-security-patch-level"@)),
        partitions: Seq::empty(),
    };
    (ota_type, pre, Some(post))
}

fn entries_of(text: &str) -> (r: Vec<(Vec<char>, Vec<char>)>)
    ensures
        r@.map_values(|e: (Vec<char>, Vec<char>)| (e.0@, e.1@)) == meta_entries(text_lines(text@)),
{
    let tv = chars_of(text);
    let lines = text_lines_exec(&tv);
    let ghost lv = vec_views(lines@);
    let mut out: Vec<(Vec<char>, Vec<char>)> = Vec::new();
    let mut i: usize = 0;
    while i < lines.len()
        invariant
            i <= lines.len(),
            lv == vec_views(lines@),
            lv == text_lines(text@),
            out@.map_values(|e: (Vec<char>, Vec<char>)| (e.0@, e.1@)) == meta_entries(lv.take(i as int)),
        decreases lines.len() - i,
    {
        let t = trim_chars(&lines[i]);
        let ghost before = out@.map_values(|e: (Vec<char>, Vec<char>)| (e.0@, e.1@));
        proof {
            let ls = lv.take(i + 1);
            assert(ls.drop_last() =~= lv.take(i as int));
            assert(ls.last() == lines@[i as int]@);
        }
        if t.len() == 0 || t[0] == '#' {
        } else {
            match split_once(&t, '=') {
                Some(kv) => {
                    out.push(kv);
                    proof {
                        assert(out@.map_values(|e: (Vec<char>, Vec<char>)| (e.0@, e.1@)) =~= before.push(
                            (kv.0@, kv.1@),
                        ));
                    }
                },
                None => {},
            }
        }
        i = i + 1;
    }
    proof {
        assert(lv.take(lines.len() as int) =~= lv);
    }
    out
}

fn entry_get(es: &Vec<(Vec<char>, Vec<char>)>, key: &str) -> (r: Option<String>)
    ensures
        opt_seq(r) == meta_get(es@.map_values(|e: (Vec<char>, Vec<char>)| (e.0@, e.1@)), key@),
{
    let ghost ev = es@.map_values(|e: (Vec<char>, Vec<char>)| (e.0@, e.1@));
    let mut i: usize = es.len();
    proof {
        assert(ev.take(es.len() as int) =~= ev);
    }
    while i > 0
        invariant
            i <= es.len(),
            ev == es@.map_values(|e: (Vec<char>, Vec<char>)| (e.0@, e.1@)),
            meta_get(ev.take(i as int), key@) == meta_get(ev, key@),
        decreases i,
    {
        let ghost t = ev.take(i as int);
        proof {
            assert(t.drop_last() =~= ev.take(i - 1));
            assert(t.last() == (es@[i - 1].0@, es@[i - 1].1@));
        }
        if crate::text::eq_str(&es[i - 1].0, key) {
            return Some(string_of(&es[i - 1].1));
        }
        i = i - 1;
    }
    None
}

fn list_of(o: Option<String>) -> (r: Vec<String>)
    ensures
        views(r@) == opt_list(opt_seq(o)),
{
    let mut v: Vec<String> = Vec::new();
    match o {
        Some(t) => {
            v.push(t);
            proof {
                assert(views(v@) =~= seq![t@]);
            }
        },
        None => {
            proof {
                assert(views(v@) =~= Seq::<Seq<char>>::empty());
            }
        },
    }
    v
}

/// The metadata of an OTA package read from its text form.
pub fn parse_text_metadata(text: &str) -> (r: OtaMetadata)
    ensures
        (r.ota_type, opt_state(r.precondition), opt_state(r.postcondition)) == metadata_spec(text@),
        !r.wipe,
        !r.downgrade,
        r.property_files@.len() == 0,
        !r.retrofit_dynamic_partitions,
        r.required_cache == 0,
        !r.spl_downgrade,
{
    proof {
        reveal_strlit("pre-");
        reveal_strlit("AB");
        reveal_strlit("BLOCK");
        reveal_strlit("BRICK");
    }
    let es = entries_of(text);
    let ghost ev = es@.map_values(|e: (Vec<char>, Vec<char>)| (e.0@, e.1@));
    let mut has_pre = false;
    let mut i: usize = 0;
    while i < es.len()
        invariant
            i <= es.len(),
            ev == es@.map_values(|e: (Vec<char>, Vec<char>)| (e.0@, e.1@)),
            has_pre <==> exists|j: int| 0 <= j < i && has_prefix(#[trigger] ev[j].0, "pre-"@),
        decreases es.len() - i,
    {
        if starts_with_str(&es[i].0, "pre-") {
            has_pre = true;
        }
        proof {
            assert(ev[i as int].0 == es@[i as int].0@);
        }
        i = i + 1;
    }
    let ota = entry_get(&es, "ota-type");
    let ota_type: i32 = match &ota {
        Some(t) => if crate::text::str_eq(t.as_str(), "AB") {
            1
        } else if crate::text::str_eq(t.as_str(), "BLOCK") {
            2
        } else if crate::text::str_eq(t.as_str(), "BRICK") {
            3
        } else {
            0
        },
        None => 0,
    };
    let precondition = if has_pre {
        let s = DeviceState {
            device: list_of(entry_get(&es, "pre-device")),
            build: list_of(entry_get(&es, "pre-build")),
            build_incremental: owned_or_empty(&entry_get(&es, "pre-build-incremental")),
            timestamp: 0,
            sdk_level: String::new(),
            security_patch_level: String::new(),
            partition_state: Vec::new(),
        };
        proof {
            assert(s@.partitions =~= Seq::<(Seq<char>, Seq<Seq<char>>)>::empty());
        }
        Some(s)
    } else {
        None
    };
    let stamp = entry_get(&es, "post-timestamp");
    let timestamp: i64 = match &stamp {
        Some(t) => match parse_opt_i64(t) {
            Some(n) => n,
            None => 0,
        },
        None => 0,
    };
    let post = DeviceState {
        device: list_of(entry_get(&es, "post-device")),
        build: list_of(entry_get(&es, "post-build")),
        build_incremental: owned_or_empty(&entry_get(&es, "post-build-incremental")),
        timestamp,
        sdk_level: owned_or_empty(&entry_get(&es, "post-sdk-level")),
        security_patch_level: owned_or_empty(&entry_get(&es, "post-security-patch-level")),
        partition_state: Vec::new(),
    };
    proof {
        assert(post@.partitions =~= Seq::<(Seq<char>, Seq<Seq<char>>)>::empty());
    }
    OtaMetadata {
        ota_type,
        wipe: false,
        downgrade: false,
        property_files: Vec::new(),
        precondition,
        postcondition: Some(post),
        retrofit_dynamic_partitions: false,
        required_cache: 0,
        spl_downgrade: false,
    }
}


/// The build of the first partition named `odm`, when it lists one.
pub open spec fn odm_build(parts: Seq<(Seq<char>, Seq<Seq<char>>)>) -> Option<Seq<char>>
    decreases parts.len(),
{
    if parts.len() == 0 {
        None
    } else if parts[0].0 == "odm"@ {
        if parts[0].1.len() > 0 {
            Some(parts[0].1[0])
        } else {
            None
        }
    } else {
        odm_build(parts.drop_first())
    }
}

/// The fingerprint of a state: the `odm` partition's build, else the first
/// build, else empty.
pub open spec fn fingerprint_spec(post: StateView) -> Seq<char> {
    match odm_build(post.partitions) {
        Some(b) => b,
        None => if post.build.len() > 0 {
            post.build[0]
        } else {
            Seq::empty()
        },
    }
}

/// A package's details after its metadata is read: unchanged without a
/// post state; else the fingerprint, patch level and SDK level of that
/// state, and its time (as `local_time` writes it) when it has one.
pub open spec fn with_metadata(rom: RomInfoView, post: Option<StateView>, local_time: Seq<char>) -> RomInfoView {
    match post {
        None => rom,
        Some(p) => RomInfoView {
            fingerprint: fingerprint_spec(p),
            security_patch_level: p.security_patch_level,
            sdk_level: p.sdk_level,
            timestamp: if p.timestamp > 0 {
                local_time
            } else {
                Seq::empty()
            },
            ..rom
        },
    }
}

fn fingerprint_of(post: &DeviceState) -> (r: String)
    ensures
        r@ == fingerprint_spec(post@),
{
    proof {
        reveal_strlit("odm");
    }
    let ghost parts = post@.partitions;
    let mut i: usize = 0;
    proof {
        assert(parts.skip(0) =~= parts);
    }
    while i < post.partition_state.len()
        invariant
            i <= post.partition_state.len(),
            parts == post@.partitions,
            odm_build(parts.skip(i as int)) == odm_build(parts),
        decreases post.partition_state.len() - i,
    {
        let part = &post.partition_state[i];
        proof {
            assert(parts.skip(i as int)[0] == (part.partition_name@, views(part.build@)));
            assert(parts.skip(i as int).drop_first() =~= parts.skip(i + 1));
        }
        if crate::text::str_eq(part.partition_name.as_str(), "odm") {
            if part.build.len() > 0 {
                return part.build[0].clone();
            }
            i = post.partition_state.len();
            proof {
                assert(odm_build(parts) is None);
                assert(parts.skip(i as int) =~= Seq::<(Seq<char>, Seq<Seq<char>>)>::empty());
            }
        } else {
            i = i + 1;
        }
    }
    proof {
        assert(parts.skip(i as int) =~= Seq::<(Seq<char>, Seq<Seq<char>>)>::empty());
    }
    if post.build.len() > 0 {
        post.build[0].clone()
    } else {
        String::new()
    }
}

/// Fills a package's details from the metadata of its OTA package;
/// `local_time` is the post state's timestamp as local time.
pub fn apply_metadata(rom: &mut RomInfoData, metadata: &OtaMetadata, local_time: &str)
    ensures
        final(rom)@ == with_metadata(old(rom)@, opt_state(metadata.postcondition), local_time@),
{
    match &metadata.postcondition {
        None => {},
        Some(post) => {
            rom.fingerprint = fingerprint_of(post);
            rom.security_patch_level = post.security_patch_level.clone();
            rom.sdk_level = post.sdk_level.clone();
            rom.timestamp = if post.timestamp > 0 {
                local_time.to_owned()
            } else {
                String::new()
            };
        },
    }
}

} // verus!

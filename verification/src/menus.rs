//! The button menus of the music messages: settings, favorites, lyric
//! script switches, track actions and search results. A menu is rows of
//! buttons; a button answers with callback data, opens an address, or
//! starts an inline query in the current chat.
use vstd::prelude::*;
use vstd::string::StrSliceExecFns;
use crate::callback::{
    encode_spec, ActionView, FavoriteScope, FavoriteView, MusicCallbackAction, MusicFavoriteAction,
    MusicLyricScript, MusicSettingAction, SettingView, script_label, toggled_script,
};
use crate::provider::{platform_id, platform_label, MusicPlatform, MusicQuery, MusicSearchItem, MusicTrack};
use crate::settings::{lyric_script_options, platform_options, quality_options, SettingsView, UserMusicSettings};
use crate::text::{chars_of, concat, push_str, string_of, trim_spec};

verus! {

/// What pressing a button does.
#[derive(Clone, Debug, PartialEq, Eq)]
pub enum ButtonKind {
    Callback(String),
    Url(String),
    SwitchInlineCurrentChat(String),
}

/// A button of a menu.
#[derive(Clone, Debug, PartialEq, Eq)]
pub struct MenuButton {
    pub text: String,
    pub kind: ButtonKind,
}

pub enum KindView {
    Callback(Seq<char>),
    Url(Seq<char>),
    SwitchInlineCurrentChat(Seq<char>),
}

pub struct ButtonView {
    pub text: Seq<char>,
    pub kind: KindView,
}

impl View for MenuButton {
    type V = ButtonView;

    open spec fn view(&self) -> ButtonView {
        ButtonView {
            text: self.text@,
            kind: match self.kind {
                ButtonKind::Callback(d) => KindView::Callback(d@),
                ButtonKind::Url(u) => KindView::Url(u@),
                ButtonKind::SwitchInlineCurrentChat(q) => KindView::SwitchInlineCurrentChat(q@),
            },
        }
    }
}

pub open spec fn row_view(r: Seq<MenuButton>) -> Seq<ButtonView> {
    r.map_values(|b: MenuButton| b@)
}

pub open spec fn menu_view(m: Seq<Vec<MenuButton>>) -> Seq<Seq<ButtonView>> {
    m.map_values(|r: Vec<MenuButton>| row_view(r@))
}

/// The button with the text that sends an action's callback data, when
/// the action encodes.
pub open spec fn action_button(text: Seq<char>, a: ActionView) -> Option<ButtonView> {
    match encode_spec(a) {
        Some(p) => Some(ButtonView { text, kind: KindView::Callback(p) }),
        None => None,
    }
}

/// The button of an optional button, as a row part.
pub open spec fn opt_row(b: Option<ButtonView>) -> Seq<ButtonView> {
    match b {
        Some(x) => seq![x],
        None => Seq::empty(),
    }
}

fn action_button_exec(text: String, a: &MusicCallbackAction) -> (r: Option<MenuButton>)
    ensures
        match action_button(text@, a@) {
            Some(b) => r matches Some(x) && x@ == b,
            None => r is None,
        },
{
    match a.encode() {
        Some(data) => Some(MenuButton { text, kind: ButtonKind::Callback(data) }),
        None => None,
    }
}

fn push_opt(row: &mut Vec<MenuButton>, b: Option<MenuButton>)
    ensures
        row_view(final(row)@) == row_view(old(row)@) + opt_row(
            match b {
                Some(x) => Some(x@),
                None => None,
            },
        ),
{
    let ghost r0 = row_view(row@);
    match b {
        Some(x) => {
            let ghost xv = x@;
            row.push(x);
            proof {
                assert(row_view(row@) =~= r0 + seq![xv]);
            }
        },
        None => {
            proof {
                assert(r0 + Seq::<ButtonView>::empty() =~= r0);
            }
        },
    }
}

/// Which setting a settings button changes.
#[derive(Clone, Copy, Debug, PartialEq, Eq, Structural)]
pub enum SettingKind {
    Platform,
    Quality,
    LyricScript,
}

pub open spec fn setting_of(kind: SettingKind, value: Seq<char>) -> SettingView {
    match kind {
        SettingKind::Platform => SettingView::Platform(value),
        SettingKind::Quality => SettingView::Quality(value),
        SettingKind::LyricScript => SettingView::LyricScript(value),
    }
}

/// A label marked `✅ ` when selected.
pub open spec fn marked(label: Seq<char>, selected: bool) -> Seq<char> {
    if selected {
        "✅ "@ + label
    } else {
        label
    }
}

/// The buttons of a setting's options, each marked when it is the current
/// value; options whose action does not encode are left out.
pub open spec fn option_buttons(options: Seq<(Seq<char>, Seq<char>)>, kind: SettingKind, current: Seq<char>) -> Seq<
    ButtonView,
>
    decreases options.len(),
{
    if options.len() == 0 {
        Seq::empty()
    } else {
        opt_row(
            action_button(
                marked(options[0].1, current == options[0].0),
                ActionView::Setting(setting_of(kind, options[0].0)),
            ),
        ) + option_buttons(options.drop_first(), kind, current)
    }
}

/// The settings menu: the platforms in rows of three, the qualities, the
/// cover switch (showing the current state, pressing it flips it), and the
/// lyric scripts.
pub open spec fn settings_menu_spec(s: SettingsView) -> Seq<Seq<ButtonView>> {
    seq![
        option_buttons(platform_options().take(3), SettingKind::Platform, s.default_platform),
        option_buttons(platform_options().skip(3), SettingKind::Platform, s.default_platform),
        option_buttons(quality_options(), SettingKind::Quality, s.quality),
    ] + match action_button(
        "发送封面 "@ + (if s.send_cover {
            "✅"@
        } else {
            "❌"@
        }),
        ActionView::Setting(SettingView::Cover(!s.send_cover)),
    ) {
        Some(b) => seq![seq![b]],
        None => Seq::empty(),
    } + seq![option_buttons(lyric_script_options(), SettingKind::LyricScript, s.lyric_script)]
}

pub open spec fn str_pair_views(v: Seq<(&str, &str)>) -> Seq<(Seq<char>, Seq<char>)> {
    v.map_values(|p: (&str, &str)| (p.0@, p.1@))
}

fn platform_table() -> (r: Vec<(&'static str, &'static str)>)
    ensures
        str_pair_views(r@) == platform_options(),
{
    let r = vec![
        ("soda", "汽水"),
        ("tencent", "QQ音乐"),
        ("netease", "网易云"),
        ("kugou", "酷狗"),
        ("bilibili", "Bilibili"),
        ("applemusic", "Apple Music"),
    ];
    assert(str_pair_views(r@) =~= platform_options());
    r
}

fn quality_table() -> (r: Vec<(&'static str, &'static str)>)
    ensures
        str_pair_views(r@) == quality_options(),
{
    let r = vec![("standard", "标准"), ("high", "高品质"), ("lossless", "无损"), ("hires", "Hi-Res")];
    assert(str_pair_views(r@) =~= quality_options());
    r
}

fn script_table() -> (r: Vec<(&'static str, &'static str)>)
    ensures
        str_pair_views(r@) == lyric_script_options(),
{
    let r = vec![("simplified", "简体"), ("traditional", "繁体")];
    assert(str_pair_views(r@) =~= lyric_script_options());
    r
}

fn setting_action(kind: SettingKind, value: &str) -> (r: MusicCallbackAction)
    ensures
        r@ == ActionView::Setting(setting_of(kind, value@)),
{
    let v = value.to_owned();
    match kind {
        SettingKind::Platform => MusicCallbackAction::Setting(MusicSettingAction::Platform(v)),
        SettingKind::Quality => MusicCallbackAction::Setting(MusicSettingAction::Quality(v)),
        SettingKind::LyricScript => MusicCallbackAction::Setting(
            MusicSettingAction::LyricScript(v),
        ),
    }
}

fn option_row(
    table: &Vec<(&'static str, &'static str)>,
    from: usize,
    to: usize,
    kind: SettingKind,
    current: &String,
) -> (r: Vec<MenuButton>)
    requires
        from <= to <= table@.len(),
    ensures
        row_view(r@) == option_buttons(
            str_pair_views(table@).subrange(from as int, to as int),
            kind,
            current@,
        ),
{
    let ghost opts = str_pair_views(table@);
    let mut row: Vec<MenuButton> = Vec::new();
    let mut i = from;
    proof {
        assert(row_view(row@) + option_buttons(opts.subrange(from as int, to as int), kind, current@)
            =~= option_buttons(opts.subrange(from as int, to as int), kind, current@));
    }
    while i < to
        invariant
            from <= i <= to <= table@.len(),
            opts == str_pair_views(table@),
            row_view(row@) + option_buttons(opts.subrange(i as int, to as int), kind, current@)
                == option_buttons(opts.subrange(from as int, to as int), kind, current@),
        decreases to - i,
    {
        let (value, label) = table[i];
        let selected = crate::text::str_eq(current.as_str(), value);
        let text = crate::settings::selected_label(label, selected);
        let action = setting_action(kind, value);
        let b = action_button_exec(text, &action);
        let ghost r0 = row_view(row@);
        proof {
            let sub = opts.subrange(i as int, to as int);
            assert(sub[0] == (value@, label@));
            assert(sub.drop_first() =~= opts.subrange(i + 1, to as int));
        }
        push_opt(&mut row, b);
        proof {
            let sub = opts.subrange(i as int, to as int);
            assert(option_buttons(sub, kind, current@) == opt_row(
                action_button(marked(label@, current@ == value@), ActionView::Setting(setting_of(kind, value@))),
            ) + option_buttons(opts.subrange(i + 1, to as int), kind, current@));
            assert(r0 + (opt_row(
                action_button(marked(label@, current@ == value@), ActionView::Setting(setting_of(kind, value@))),
            ) + option_buttons(opts.subrange(i + 1, to as int), kind, current@)) =~= (r0 + opt_row(
                action_button(marked(label@, current@ == value@), ActionView::Setting(setting_of(kind, value@))),
            )) + option_buttons(opts.subrange(i + 1, to as int), kind, current@));
        }
        i = i + 1;
    }
    proof {
        assert(option_buttons(opts.subrange(to as int, to as int), kind, current@) =~= Seq::<
            ButtonView,
        >::empty()) by {
            assert(opts.subrange(to as int, to as int).len() == 0);
        }
        assert(row_view(row@) + Seq::<ButtonView>::empty() =~= row_view(row@));
    }
    row
}

pub fn music_settings_menu(settings: &UserMusicSettings) -> (r: Vec<Vec<MenuButton>>)
    ensures
        menu_view(r@) == settings_menu_spec(settings@),
{
    let platforms = platform_table();
    let qualities = quality_table();
    let scripts = script_table();
    let mut keyboard: Vec<Vec<MenuButton>> = Vec::new();
    assert(str_pair_views(platforms@).len() == platforms@.len());
    let r1 = option_row(&platforms, 0, 3, SettingKind::Platform, &settings.default_platform);
    let r2 = option_row(&platforms, 3, 6, SettingKind::Platform, &settings.default_platform);
    assert(str_pair_views(qualities@).len() == qualities@.len());
    assert(str_pair_views(scripts@).len() == scripts@.len());
    assert(str_pair_views(platforms@).len() == platforms@.len());
    let r3 = option_row(&qualities, 0, 4, SettingKind::Quality, &settings.quality);
    proof {
        assert(str_pair_views(platforms@).subrange(0, 3) =~= platform_options().take(3));
        assert(str_pair_views(platforms@).subrange(3, 6) =~= platform_options().skip(3));
        assert(str_pair_views(qualities@).subrange(0, 4) =~= quality_options());
        assert(str_pair_views(scripts@).subrange(0, 2) =~= lyric_script_options());
    }
    let ghost v1 = row_view(r1@);
    let ghost v2 = row_view(r2@);
    let ghost v3 = row_view(r3@);
    keyboard.push(r1);
    keyboard.push(r2);
    keyboard.push(r3);
    let mut text = String::from_str("发送封面 ");
    push_str(&mut text, if settings.send_cover {
        "✅"
    } else {
        "❌"
    });
    let cover_action = MusicCallbackAction::Setting(MusicSettingAction::Cover(!settings.send_cover));
    let ghost k0 = menu_view(keyboard@);
    proof {
        assert(k0 =~= seq![v1, v2, v3]);
    }
    let cover = action_button_exec(text, &cover_action);
    let ghost cover_rows: Seq<Seq<ButtonView>> = match cover {
        Some(ref b) => seq![seq![b@]],
        None => Seq::empty(),
    };
    match cover {
        Some(b) => {
            let ghost bv = b@;
            let mut row: Vec<MenuButton> = Vec::new();
            row.push(b);
            proof {
                assert(row_view(row@) =~= seq![bv]);
            }
            let ghost rv = row_view(row@);
            keyboard.push(row);
            proof {
                assert(menu_view(keyboard@) =~= k0.push(rv));
                assert(menu_view(keyboard@) =~= k0 + cover_rows);
            }
        },
        None => {
            proof {
                assert(menu_view(keyboard@) =~= k0 + cover_rows);
            }
        },
    }
    let r4 = option_row(&scripts, 0, 2, SettingKind::LyricScript, &settings.lyric_script);
    let ghost v4 = row_view(r4@);
    let ghost k1 = menu_view(keyboard@);
    keyboard.push(r4);
    proof {
        assert(menu_view(keyboard@) =~= k1.push(v4));
        assert(menu_view(keyboard@) =~= settings_menu_spec(settings@));
    }
    keyboard
}

/// The settings menu of an inline message: the settings menu and a close
/// button.
pub open spec fn inline_settings_menu_spec(s: SettingsView) -> Seq<Seq<ButtonView>> {
    settings_menu_spec(s) + match action_button("关闭"@, ActionView::Close) {
        Some(b) => seq![seq![b]],
        None => Seq::empty(),
    }
}

pub fn inline_music_settings_menu(settings: &UserMusicSettings) -> (r: Vec<Vec<MenuButton>>)
    ensures
        menu_view(r@) == inline_settings_menu_spec(settings@),
{
    let mut keyboard = music_settings_menu(settings);
    let ghost k0 = menu_view(keyboard@);
    match action_button_exec(String::from_str("关闭"), &MusicCallbackAction::Close) {
        Some(b) => {
            let ghost bv = b@;
            let mut row: Vec<MenuButton> = Vec::new();
            row.push(b);
            proof {
                assert(row_view(row@) =~= seq![bv]);
            }
            let ghost rv = row_view(row@);
            keyboard.push(row);
            proof {
                assert(menu_view(keyboard@) =~= k0.push(rv));
                assert(menu_view(keyboard@) =~= k0 + seq![seq![bv]]);
            }
        },
        None => {
            proof {
                assert(k0 + Seq::<Seq<ButtonView>>::empty() =~= k0);
            }
        },
    }
    keyboard
}

/// A stored favorite as the favorites list shows it.
#[derive(Clone, Debug)]
pub struct FavoriteEntry {
    pub platform: String,
    pub track_id: String,
    pub song: String,
    pub singer: String,
    pub album: String,
    pub link: String,
}

pub open spec fn scope_label(scope: FavoriteScope) -> Seq<char> {
    match scope {
        FavoriteScope::User => "个人收藏"@,
        FavoriteScope::Group => "群收藏"@,
    }
}

/// The line of the `n`-th favorite (from 1): its title, linked when it
/// has a link, its singer, and its album after ` · ` when it has one.
pub open spec fn favorite_line(n: int, f: FavoriteEntry) -> Seq<char> {
    let song = crate::music_text::html_escape_spec(f.song@);
    let title = if trim_spec(f.link@).len() == 0 {
        song
    } else {
        "<a href=\""@ + crate::music_text::html_escape_spec(f.link@) + "\">"@ + song + "</a>"@
    };
    let album = if trim_spec(f.album@).len() == 0 {
        Seq::empty()
    } else {
        " · "@ + crate::music_text::html_escape_spec(f.album@)
    };
    crate::num::digits_of(n as nat) + ". "@ + title + " - "@ + crate::music_text::html_escape_spec(
        f.singer@,
    ) + album + "\n"@
}

/// The lines of the favorites from the `k`-th on.
pub open spec fn favorite_lines(favs: Seq<FavoriteEntry>, k: int) -> Seq<char>
    decreases favs.len() - k,
{
    if k < 0 || k >= favs.len() {
        Seq::empty()
    } else {
        favorite_line(k + 1, favs[k]) + favorite_lines(favs, k + 1)
    }
}

/// The text of a favorites list: its title and one numbered line per
/// favorite, or that the list is empty.
pub open spec fn favorite_list_spec(scope: FavoriteScope, favs: Seq<FavoriteEntry>) -> Seq<char> {
    if favs.len() == 0 {
        scope_label(scope) + "为空"@
    } else {
        "<b>"@ + scope_label(scope) + "</b>\n"@ + favorite_lines(favs, 0)
    }
}

proof fn lemma_favorite_lines_step(favs: Seq<FavoriteEntry>, k: int)
    requires
        0 <= k < favs.len(),
    ensures
        favorite_lines(favs, 0).len() >= 0,
        favorite_lines(favs, k) == favorite_line(k + 1, favs[k]) + favorite_lines(favs, k + 1),
{
}

proof fn lemma_favorite_lines_prefix(favs: Seq<FavoriteEntry>, k: int)
    requires
        0 <= k <= favs.len(),
    ensures
        favorite_lines(favs, 0) == favorite_prefix(favs, k) + favorite_lines(favs, k),
    decreases k,
{
    if k > 0 {
        lemma_favorite_lines_prefix(favs, k - 1);
        assert(favorite_prefix(favs, k) == favorite_prefix(favs, k - 1) + favorite_line(k, favs[k - 1]));
        assert(favorite_lines(favs, k - 1) == favorite_line(k, favs[k - 1]) + favorite_lines(favs, k));
        assert(favorite_prefix(favs, k - 1) + (favorite_line(k, favs[k - 1]) + favorite_lines(favs, k))
            =~= (favorite_prefix(favs, k - 1) + favorite_line(k, favs[k - 1])) + favorite_lines(favs, k));
    } else {
        assert(favorite_prefix(favs, 0) + favorite_lines(favs, 0) =~= favorite_lines(favs, 0));
    }
}

/// The lines of the first `k` favorites.
pub open spec fn favorite_prefix(favs: Seq<FavoriteEntry>, k: int) -> Seq<char>
    decreases k,
{
    if k <= 0 {
        Seq::empty()
    } else {
        favorite_prefix(favs, k - 1) + favorite_line(k, favs[k - 1])
    }
}

fn favorite_line_exec(n: usize, f: &FavoriteEntry) -> (r: Vec<char>)
    ensures
        r@ == favorite_line(n as int, *f),
{
    let song = crate::music_text::html_escape_chars(&chars_of(f.song.as_str()));
    let title: Vec<char> = if crate::text::is_blank(&chars_of(f.link.as_str())) {
        song
    } else {
        let mut t = chars_of("<a href=\"");
        crate::text::extend_chars(&mut t, &crate::music_text::html_escape_chars(&chars_of(f.link.as_str())));
        crate::text::extend_str(&mut t, "\">");
        crate::text::extend_chars(&mut t, &song);
        crate::text::extend_str(&mut t, "</a>");
        t
    };
    let album: Vec<char> = if crate::text::is_blank(&chars_of(f.album.as_str())) {
        Vec::new()
    } else {
        let mut a = chars_of(" · ");
        crate::text::extend_chars(&mut a, &crate::music_text::html_escape_chars(&chars_of(f.album.as_str())));
        a
    };
    let mut out: Vec<char> = Vec::new();
    crate::num::push_digits(&mut out, n as u64);
    crate::text::extend_str(&mut out, ". ");
    crate::text::extend_chars(&mut out, &title);
    crate::text::extend_str(&mut out, " - ");
    crate::text::extend_chars(&mut out, &crate::music_text::html_escape_chars(&chars_of(f.singer.as_str())));
    crate::text::extend_chars(&mut out, &album);
    crate::text::extend_str(&mut out, "\n");
    proof {
        assert(out@ =~= favorite_line(n as int, *f));
    }
    out
}

pub fn favorite_list_text(scope: FavoriteScope, favorites: &[FavoriteEntry]) -> (r: String)
    ensures
        r@ == favorite_list_spec(scope, favorites@),
{
    if favorites.len() == 0 {
        return concat(scope.label(), "为空");
    }
    let mut text = chars_of("<b>");
    crate::text::extend_str(&mut text, scope.label());
    crate::text::extend_str(&mut text, "</b>\n");
    let ghost head = text@;
    let mut i: usize = 0;
    while i < favorites.len()
        invariant
            i <= favorites@.len(),
            text@ == head + favorite_prefix(favorites@, i as int),
        decreases favorites.len() - i,
    {
        let line = favorite_line_exec(i + 1, &favorites[i]);
        crate::text::extend_chars(&mut text, &line);
        proof {
            assert(favorite_prefix(favorites@, i + 1) == favorite_prefix(favorites@, i as int)
                + favorite_line(i + 1, favorites@[i as int]));
            assert(text@ =~= head + favorite_prefix(favorites@, i + 1));
        }
        i = i + 1;
    }
    proof {
        lemma_favorite_lines_prefix(favorites@, favorites@.len() as int);
        assert(favorite_lines(favorites@, favorites@.len() as int) =~= Seq::<char>::empty());
        assert(favorite_prefix(favorites@, favorites@.len() as int) + Seq::<char>::empty()
            =~= favorite_prefix(favorites@, favorites@.len() as int));
    }
    string_of(&text)
}

/// The chat a group favorite is kept for.
pub open spec fn group_chat(scope: FavoriteScope, scope_id: i64) -> Option<i64> {
    if scope == FavoriteScope::Group {
        Some(scope_id)
    } else {
        None
    }
}

/// The buttons of the `n`-th favorite (from 1): send it, and ask to remove
/// it; none for a favorite whose platform is unknown.
pub open spec fn favorite_row(n: int, scope: FavoriteScope, scope_id: i64, f: FavoriteEntry) -> Seq<
    ButtonView,
> {
    match crate::provider::platform_of_alias(f.platform@) {
        None => Seq::empty(),
        Some(p) => opt_row(
            action_button(
                "发送 "@ + crate::num::digits_of(n as nat),
                ActionView::Select { platform: p, id: f.track_id@, search_keyword: None },
            ),
        ) + opt_row(
            action_button(
                "取消 "@ + crate::num::digits_of(n as nat),
                ActionView::Favorite(
                    FavoriteView::AskRemove {
                        scope,
                        platform: p,
                        id: f.track_id@,
                        chat_id: group_chat(scope, scope_id),
                    },
                ),
            ),
        ),
    }
}

/// The rows of the favorites from the `k`-th on, each non-empty row kept.
pub open spec fn favorite_rows(favs: Seq<FavoriteEntry>, scope: FavoriteScope, scope_id: i64, k: int) -> Seq<
    Seq<ButtonView>,
>
    decreases k,
{
    if k <= 0 {
        Seq::empty()
    } else {
        let row = favorite_row(k, scope, scope_id, favs[k - 1]);
        favorite_rows(favs, scope, scope_id, k - 1) + (if row.len() > 0 {
            seq![row]
        } else {
            Seq::empty()
        })
    }
}

/// The favorites menu: a row per favorite, then a close button.
pub open spec fn favorite_menu_spec(scope: FavoriteScope, scope_id: i64, favs: Seq<FavoriteEntry>) -> Seq<
    Seq<ButtonView>,
> {
    favorite_rows(favs, scope, scope_id, favs.len() as int) + match encode_spec(
        ActionView::Favorite(FavoriteView::Close),
    ) {
        Some(p) => seq![seq![ButtonView { text: "关闭"@, kind: KindView::Callback(p) }]],
        None => Seq::empty(),
    }
}

fn number_label(prefix: &str, n: usize) -> (r: String)
    ensures
        r@ == prefix@ + crate::num::digits_of(n as nat),
{
    let mut v = chars_of(prefix);
    crate::num::push_digits(&mut v, n as u64);
    string_of(&v)
}

fn group_chat_exec(scope: FavoriteScope, scope_id: i64) -> (r: Option<i64>)
    ensures
        r == group_chat(scope, scope_id),
{
    match scope {
        FavoriteScope::Group => Some(scope_id),
        FavoriteScope::User => None,
    }
}

fn favorite_row_exec(n: usize, scope: FavoriteScope, scope_id: i64, f: &FavoriteEntry) -> (r: Vec<
    MenuButton,
>)
    ensures
        row_view(r@) == favorite_row(n as int, scope, scope_id, *f),
{
    let mut row: Vec<MenuButton> = Vec::new();
    let platform = match MusicPlatform::from_alias(f.platform.as_str()) {
        Some(p) => p,
        None => {
            proof {
                assert(row_view(row@) =~= Seq::<ButtonView>::empty());
            }
            return row;
        },
    };
    let send = MusicCallbackAction::Select {
        platform,
        id: f.track_id.clone(),
        search_keyword: None,
    };
    let remove = MusicCallbackAction::Favorite(
        MusicFavoriteAction::AskRemove {
            scope,
            platform,
            id: f.track_id.clone(),
            chat_id: group_chat_exec(scope, scope_id),
        },
    );
    proof {
        assert(row_view(row@) =~= Seq::<ButtonView>::empty());
    }
    push_opt(&mut row, action_button_exec(number_label("发送 ", n), &send));
    push_opt(&mut row, action_button_exec(number_label("取消 ", n), &remove));
    proof {
        assert(row_view(row@) =~= favorite_row(n as int, scope, scope_id, *f));
    }
    row
}

pub fn favorite_list_menu(scope: FavoriteScope, scope_id: i64, favorites: &[FavoriteEntry]) -> (r:
    Vec<Vec<MenuButton>>)
    ensures
        menu_view(r@) == favorite_menu_spec(scope, scope_id, favorites@),
{
    let mut keyboard: Vec<Vec<MenuButton>> = Vec::new();
    let mut i: usize = 0;
    proof {
        assert(menu_view(keyboard@) =~= Seq::<Seq<ButtonView>>::empty());
    }
    while i < favorites.len()
        invariant
            i <= favorites@.len(),
            menu_view(keyboard@) == favorite_rows(favorites@, scope, scope_id, i as int),
        decreases favorites.len() - i,
    {
        let row = favorite_row_exec(i + 1, scope, scope_id, &favorites[i]);
        let ghost k0 = menu_view(keyboard@);
        let ghost rv = row_view(row@);
        if row.len() > 0 {
            keyboard.push(row);
            proof {
                assert(menu_view(keyboard@) =~= k0.push(rv));
                assert(menu_view(keyboard@) =~= k0 + seq![rv]);
            }
        } else {
            proof {
                assert(k0 + Seq::<Seq<ButtonView>>::empty() =~= k0);
            }
        }
        i = i + 1;
    }
    let close = MusicCallbackAction::Favorite(MusicFavoriteAction::Close);
    let ghost k1 = menu_view(keyboard@);
    match action_button_exec(String::from_str("关闭"), &close) {
        Some(b) => {
            let ghost bv = b@;
            let mut row: Vec<MenuButton> = Vec::new();
            row.push(b);
            proof {
                assert(row_view(row@) =~= seq![bv]);
            }
            let ghost rv = row_view(row@);
            keyboard.push(row);
            proof {
                assert(menu_view(keyboard@) =~= k1.push(rv));
            }
        },
        None => {},
    }
    proof {
        assert(menu_view(keyboard@) =~= favorite_menu_spec(scope, scope_id, favorites@));
    }
    keyboard
}

/// The confirmation asked before removing a favorite: confirm the removal,
/// or go back to the list.
pub open spec fn confirm_menu_spec(scope: FavoriteScope, scope_id: i64, platform: MusicPlatform, id: Seq<
    char,
>) -> Seq<Seq<ButtonView>> {
    let chat_id = group_chat(scope, scope_id);
    seq![
        opt_row(
            action_button(
                "确认取消"@,
                ActionView::Favorite(FavoriteView::Remove { scope, platform, id, chat_id }),
            ),
        ) + opt_row(
            action_button("返回列表"@, ActionView::Favorite(FavoriteView::List { scope, chat_id })),
        ),
    ]
}

pub fn favorite_confirm_menu(scope: FavoriteScope, scope_id: i64, platform: MusicPlatform, id: &str) -> (r:
    Vec<Vec<MenuButton>>)
    ensures
        menu_view(r@) == confirm_menu_spec(scope, scope_id, platform, id@),
{
    let chat_id = group_chat_exec(scope, scope_id);
    let confirm = MusicCallbackAction::Favorite(
        MusicFavoriteAction::Remove { scope, platform, id: id.to_owned(), chat_id },
    );
    let back = MusicCallbackAction::Favorite(MusicFavoriteAction::List { scope, chat_id });
    let mut row: Vec<MenuButton> = Vec::new();
    proof {
        assert(row_view(row@) =~= Seq::<ButtonView>::empty());
    }
    push_opt(&mut row, action_button_exec(String::from_str("确认取消"), &confirm));
    push_opt(&mut row, action_button_exec(String::from_str("返回列表"), &back));
    let ghost rv = row_view(row@);
    let mut keyboard: Vec<Vec<MenuButton>> = Vec::new();
    keyboard.push(row);
    proof {
        assert(menu_view(keyboard@) =~= seq![rv]);
        assert(rv =~= confirm_menu_spec(scope, scope_id, platform, id@)[0]);
    }
    keyboard
}

/// Whose favorites a scope names: the user's own, or the group chat's; an
/// error for group favorites outside a group.
pub fn favorite_scope_id(scope: FavoriteScope, is_group: bool, chat_id: i64, user_id: i64) -> (r:
    Result<i64, crate::error::BotError>)
    ensures
        match scope {
            FavoriteScope::User => r == Ok::<i64, crate::error::BotError>(user_id),
            FavoriteScope::Group => if is_group {
                r == Ok::<i64, crate::error::BotError>(chat_id)
            } else {
                r matches Err(crate::error::BotError::Custom(m)) && m@ == "群收藏只能在群聊里使用"@
            },
        },
{
    match scope {
        FavoriteScope::User => Ok(user_id),
        FavoriteScope::Group => {
            if is_group {
                Ok(chat_id)
            } else {
                Err(crate::error::BotError::Custom(String::from_str("群收藏只能在群聊里使用")))
            }
        },
    }
}

/// A menu of one button that switches the lyric script, as the action
/// makes it; empty when the action does not encode.
pub open spec fn switch_menu_spec(script: MusicLyricScript, a: ActionView) -> Seq<Seq<ButtonView>> {
    match action_button(
        match script {
            MusicLyricScript::Simplified => "切换繁体"@,
            MusicLyricScript::Traditional => "切换简体"@,
        },
        a,
    ) {
        Some(b) => seq![seq![b]],
        None => Seq::empty(),
    }
}

fn single_button_menu(b: Option<MenuButton>) -> (r: Vec<Vec<MenuButton>>)
    ensures
        menu_view(r@) == match b {
            Some(x) => seq![seq![x@]],
            None => Seq::<Seq<ButtonView>>::empty(),
        },
{
    let mut keyboard: Vec<Vec<MenuButton>> = Vec::new();
    match b {
        Some(x) => {
            let ghost xv = x@;
            let mut row: Vec<MenuButton> = Vec::new();
            row.push(x);
            proof {
                assert(row_view(row@) =~= seq![xv]);
            }
            let ghost rv = row_view(row@);
            keyboard.push(row);
            proof {
                assert(menu_view(keyboard@) =~= seq![rv]);
            }
        },
        None => {
            proof {
                assert(menu_view(keyboard@) =~= Seq::<Seq<ButtonView>>::empty());
            }
        },
    }
    keyboard
}

/// The lyric message's menu: switch to the other script.
pub fn lyric_switch_menu(platform: MusicPlatform, id: &str, script: MusicLyricScript) -> (r: Vec<
    Vec<MenuButton>,
>)
    ensures
        menu_view(r@) == switch_menu_spec(
            script,
            ActionView::Lyrics(platform, id@, Some(toggled_script(script))),
        ),
{
    let a = MusicCallbackAction::Lyrics(platform, id.to_owned(), Some(script.toggled()));
    single_button_menu(action_button_exec(String::from_str(script.switch_label()), &a))
}

/// The inline lyric message's menu: switch to the other script.
pub fn inline_lyric_switch_menu(platform: MusicPlatform, id: &str, script: MusicLyricScript) -> (r:
    Vec<Vec<MenuButton>>)
    ensures
        menu_view(r@) == switch_menu_spec(
            script,
            ActionView::InlineLyrics(platform, id@, toggled_script(script)),
        ),
{
    let a = MusicCallbackAction::InlineLyrics(platform, id.to_owned(), script.toggled());
    single_button_menu(action_button_exec(String::from_str(script.switch_label()), &a))
}

/// The rows that are not empty, as a menu; none when both are.
pub open spec fn two_rows(a: Seq<ButtonView>, b: Seq<ButtonView>) -> Option<Seq<Seq<ButtonView>>> {
    let rows = (if a.len() > 0 {
        seq![a]
    } else {
        Seq::empty()
    }) + (if b.len() > 0 {
        seq![b]
    } else {
        Seq::empty()
    });
    if rows.len() == 0 {
        None
    } else {
        Some(rows)
    }
}

fn two_rows_exec(a: Vec<MenuButton>, b: Vec<MenuButton>) -> (r: Option<Vec<Vec<MenuButton>>>)
    ensures
        match two_rows(row_view(a@), row_view(b@)) {
            Some(m) => r matches Some(x) && menu_view(x@) == m,
            None => r is None,
        },
{
    let ghost av = row_view(a@);
    let ghost bv = row_view(b@);
    let mut rows: Vec<Vec<MenuButton>> = Vec::new();
    proof {
        assert(menu_view(rows@) =~= Seq::<Seq<ButtonView>>::empty());
    }
    if a.len() > 0 {
        rows.push(a);
        proof {
            assert(menu_view(rows@) =~= seq![av]);
        }
    }
    let ghost r0 = menu_view(rows@);
    if b.len() > 0 {
        rows.push(b);
        proof {
            assert(menu_view(rows@) =~= r0.push(bv));
        }
    }
    proof {
        let want = (if av.len() > 0 {
            seq![av]
        } else {
            Seq::<Seq<ButtonView>>::empty()
        }) + (if bv.len() > 0 {
            seq![bv]
        } else {
            Seq::<Seq<ButtonView>>::empty()
        });
        assert(menu_view(rows@) =~= want);
    }
    if rows.len() == 0 {
        None
    } else {
        Some(rows)
    }
}

/// The favorite toggle of a track for a scope.
pub open spec fn toggle_view(track: MusicTrack, scope: FavoriteScope, chat_id: Option<i64>) -> ActionView {
    ActionView::Favorite(
        FavoriteView::Toggle { scope, platform: track.platform, id: track.id@, chat_id },
    )
}

/// The menu of a track sent inline: open its cover when the cover reads as
/// an address, search for more of its song in the current chat, then its
/// lyrics (under the given label, asking for the given script) and the
/// favorite toggle when it has an id.
pub open spec fn inline_track_menu_spec(
    track: MusicTrack,
    lyric_label: Seq<char>,
    target: Option<MusicLyricScript>,
) -> Option<Seq<Seq<ButtonView>>> {
    let cover = trim_spec(track.cover@);
    let utility = (if crate::urlparts::parsed_url(cover) is Some && cover.len() > 0 {
        seq![ButtonView { text: "获取封面"@, kind: KindView::Url(cover) }]
    } else {
        Seq::empty()
    }) + (if trim_spec(track.song@).len() > 0 {
        seq![
            ButtonView {
                text: "搜索更多"@,
                kind: KindView::SwitchInlineCurrentChat(
                    track.song@ + " "@ + platform_id(track.platform),
                ),
            },
        ]
    } else {
        Seq::empty()
    });
    let has_id = trim_spec(track.id@).len() > 0;
    let actions = (if has_id {
        opt_row(action_button(lyric_label, ActionView::Lyrics(track.platform, track.id@, target)))
    } else {
        Seq::empty()
    }) + (if has_id {
        opt_row(action_button("收藏"@, toggle_view(track, FavoriteScope::User, None)))
    } else {
        Seq::empty()
    });
    two_rows(utility, actions)
}

fn toggle_action(track: &MusicTrack, scope: FavoriteScope, chat_id: Option<i64>) -> (r:
    MusicCallbackAction)
    ensures
        r@ == toggle_view(*track, scope, chat_id),
{
    MusicCallbackAction::Favorite(
        MusicFavoriteAction::Toggle {
            scope,
            platform: track.platform,
            id: track.id.clone(),
            chat_id,
        },
    )
}

pub fn inline_track_menu_with_lyric_label(
    track: &MusicTrack,
    lyric_label: &str,
    lyric_target: Option<MusicLyricScript>,
) -> (r: Option<Vec<Vec<MenuButton>>>)
    ensures
        match inline_track_menu_spec(*track, lyric_label@, lyric_target) {
            Some(m) => r matches Some(x) && menu_view(x@) == m,
            None => r is None,
        },
{
    let mut utility: Vec<MenuButton> = Vec::new();
    let cover = string_of(&crate::text::trim_chars(&chars_of(track.cover.as_str())));
    proof {
        assert(row_view(utility@) =~= Seq::<ButtonView>::empty());
    }
    let ghost u0 = row_view(utility@);
    if crate::urlparts::parse_url(cover.as_str()).is_some() && cover.as_str().unicode_len() > 0 {
        let ghost cv = cover@;
        utility.push(MenuButton { text: String::from_str("获取封面"), kind: ButtonKind::Url(cover) });
        proof {
            assert(row_view(utility@) =~= seq![ButtonView { text: "获取封面"@, kind: KindView::Url(cv) }]);
        }
    }
    let ghost u1 = row_view(utility@);
    if !crate::text::is_blank(&chars_of(track.song.as_str())) {
        let mut q = track.song.clone();
        push_str(&mut q, " ");
        push_str(&mut q, track.platform.id());
        let ghost qv = q@;
        utility.push(
            MenuButton {
                text: String::from_str("搜索更多"),
                kind: ButtonKind::SwitchInlineCurrentChat(q),
            },
        );
        proof {
            assert(row_view(utility@) =~= u1.push(
                ButtonView { text: "搜索更多"@, kind: KindView::SwitchInlineCurrentChat(qv) },
            ));
        }
    }
    proof {
        let cv = trim_spec(track.cover@);
        let want = (if crate::urlparts::parsed_url(cv) is Some && cv.len() > 0 {
            seq![ButtonView { text: "获取封面"@, kind: KindView::Url(cv) }]
        } else {
            Seq::empty()
        }) + (if trim_spec(track.song@).len() > 0 {
            seq![
                ButtonView {
                    text: "搜索更多"@,
                    kind: KindView::SwitchInlineCurrentChat(
                        track.song@ + " "@ + platform_id(track.platform),
                    ),
                },
            ]
        } else {
            Seq::empty()
        });
        assert(row_view(utility@) =~= want);
    }
    let mut actions: Vec<MenuButton> = Vec::new();
    proof {
        assert(row_view(actions@) =~= Seq::<ButtonView>::empty());
    }
    let has_id = !crate::text::is_blank(&chars_of(track.id.as_str()));
    if has_id {
        let a = MusicCallbackAction::Lyrics(track.platform, track.id.clone(), lyric_target);
        push_opt(&mut actions, action_button_exec(lyric_label.to_owned(), &a));
        let t = toggle_action(track, FavoriteScope::User, None);
        push_opt(&mut actions, action_button_exec(String::from_str("收藏"), &t));
    }
    proof {
        let s = inline_track_menu_spec(*track, lyric_label@, lyric_target);
        assert(row_view(actions@) =~= (if has_id {
            opt_row(action_button(lyric_label@, ActionView::Lyrics(track.platform, track.id@, lyric_target)))
        } else {
            Seq::empty()
        }) + (if has_id {
            opt_row(action_button("收藏"@, toggle_view(*track, FavoriteScope::User, None)))
        } else {
            Seq::empty()
        }));
    }
    two_rows_exec(utility, actions)
}

/// The menu of a track sent inline, with the plain lyrics button.
pub fn inline_track_menu(track: &MusicTrack) -> (r: Option<Vec<Vec<MenuButton>>>)
    ensures
        match inline_track_menu_spec(*track, "歌词"@, None) {
            Some(m) => r matches Some(x) && menu_view(x@) == m,
            None => r is None,
        },
{
    inline_track_menu_with_lyric_label(track, "歌词", None)
}

/// The menu of a track sent inline with its lyrics shown in a script: the
/// lyrics button switches to the other script.
pub fn inline_track_lyric_menu(track: &MusicTrack, script: MusicLyricScript) -> (r: Option<
    Vec<Vec<MenuButton>>,
>)
    ensures
        match inline_track_menu_spec(
            *track,
            match script {
                MusicLyricScript::Simplified => "切换繁体"@,
                MusicLyricScript::Traditional => "切换简体"@,
            },
            Some(toggled_script(script)),
        ) {
            Some(m) => r matches Some(x) && menu_view(x@) == m,
            None => r is None,
        },
{
    inline_track_menu_with_lyric_label(track, script.switch_label(), Some(script.toggled()))
}

/// The query "search more" repeats: the one that found the track unless
/// it looked the track up directly, else the track's song.
pub open spec fn more_query(track: MusicTrack, fallback: Option<MusicQuery>) -> (MusicPlatform, Seq<char>) {
    match fallback {
        Some(q) => if !crate::music_text::direct_lookup_spec(q.keyword@, track.platform, track.id@) {
            (q.platform, q.keyword@)
        } else {
            (track.platform, track.song@)
        },
        None => (track.platform, track.song@),
    }
}

/// The menu under a sent track: its cover and "search more" (on the query
/// that found it, or its song when that query does not encode), then its
/// lyrics, the favorite toggle, and in a group the group favorite toggle,
/// when it has an id.
pub open spec fn track_menu_spec(
    track: MusicTrack,
    fallback: Option<MusicQuery>,
    is_group: bool,
    chat_id: i64,
) -> Option<Seq<Seq<ButtonView>>> {
    let has_id = trim_spec(track.id@).len() > 0;
    let cover = if trim_spec(track.cover@).len() > 0 && has_id {
        opt_row(action_button("获取封面"@, ActionView::Cover(track.platform, track.id@)))
    } else {
        Seq::empty()
    };
    let (qp, qk) = more_query(track, fallback);
    let search = match encode_spec(ActionView::SearchMore(qp, qk)) {
        Some(p) => seq![ButtonView { text: "搜索更多"@, kind: KindView::Callback(p) }],
        None => opt_row(
            action_button("搜索更多"@, ActionView::SearchMore(track.platform, track.song@)),
        ),
    };
    let actions = if has_id {
        opt_row(action_button("歌词"@, ActionView::Lyrics(track.platform, track.id@, None)))
            + opt_row(action_button("收藏"@, toggle_view(track, FavoriteScope::User, None)))
            + (if is_group {
            opt_row(action_button("群收藏"@, toggle_view(track, FavoriteScope::Group, Some(chat_id))))
        } else {
            Seq::empty()
        })
    } else {
        Seq::empty()
    };
    two_rows(cover + search, actions)
}

pub fn track_menu_for_context(
    track: &MusicTrack,
    fallback_query: Option<&MusicQuery>,
    is_group: bool,
    chat_id: i64,
) -> (r: Option<Vec<Vec<MenuButton>>>)
    ensures
        match track_menu_spec(
            *track,
            match fallback_query {
                Some(q) => Some(*q),
                None => None,
            },
            is_group,
            chat_id,
        ) {
            Some(m) => r matches Some(x) && menu_view(x@) == m,
            None => r is None,
        },
{
    let has_id = !crate::text::is_blank(&chars_of(track.id.as_str()));
    let mut utility: Vec<MenuButton> = Vec::new();
    proof {
        assert(row_view(utility@) =~= Seq::<ButtonView>::empty());
    }
    if !crate::text::is_blank(&chars_of(track.cover.as_str())) && has_id {
        let a = MusicCallbackAction::Cover(track.platform, track.id.clone());
        push_opt(&mut utility, action_button_exec(String::from_str("获取封面"), &a));
    }
    let ghost u0 = row_view(utility@);
    let preferred = match fallback_query {
        Some(q) => if !crate::music_text::is_direct_track_lookup(q.keyword.as_str(), track) {
            MusicQuery { platform: q.platform, keyword: q.keyword.clone() }
        } else {
            MusicQuery { platform: track.platform, keyword: track.song.clone() }
        },
        None => MusicQuery { platform: track.platform, keyword: track.song.clone() },
    };
    let search_callback = match MusicCallbackAction::SearchMore(preferred).encode() {
        Some(c) => Some(c),
        None => MusicCallbackAction::SearchMore(
            MusicQuery { platform: track.platform, keyword: track.song.clone() },
        ).encode(),
    };
    match search_callback {
        Some(c) => {
            let ghost cv = c@;
            utility.push(MenuButton { text: String::from_str("搜索更多"), kind: ButtonKind::Callback(c) });
            proof {
                assert(row_view(utility@) =~= u0.push(ButtonView { text: "搜索更多"@, kind: KindView::Callback(cv) }));
            }
        },
        None => {},
    }
    let mut actions: Vec<MenuButton> = Vec::new();
    proof {
        assert(row_view(actions@) =~= Seq::<ButtonView>::empty());
    }
    if has_id {
        let l = MusicCallbackAction::Lyrics(track.platform, track.id.clone(), None);
        push_opt(&mut actions, action_button_exec(String::from_str("歌词"), &l));
        let t = toggle_action(track, FavoriteScope::User, None);
        push_opt(&mut actions, action_button_exec(String::from_str("收藏"), &t));
        if is_group {
            let g = toggle_action(track, FavoriteScope::Group, Some(chat_id));
            push_opt(&mut actions, action_button_exec(String::from_str("群收藏"), &g));
        }
    }
    proof {
        let f = match fallback_query {
            Some(q) => Some(*q),
            None => None,
        };
        let (qp, qk) = more_query(*track, f);
        let search = match encode_spec(ActionView::SearchMore(qp, qk)) {
            Some(p) => seq![ButtonView { text: "搜索更多"@, kind: KindView::Callback(p) }],
            None => opt_row(
                action_button("搜索更多"@, ActionView::SearchMore(track.platform, track.song@)),
            ),
        };
        let cover = if trim_spec(track.cover@).len() > 0 && has_id {
            opt_row(action_button("获取封面"@, ActionView::Cover(track.platform, track.id@)))
        } else {
            Seq::empty()
        };
        assert(row_view(utility@) =~= cover + search);
        let acts = if has_id {
            opt_row(action_button("歌词"@, ActionView::Lyrics(track.platform, track.id@, None)))
                + opt_row(action_button("收藏"@, toggle_view(*track, FavoriteScope::User, None)))
                + (if is_group {
                opt_row(action_button("群收藏"@, toggle_view(*track, FavoriteScope::Group, Some(chat_id))))
            } else {
                Seq::empty()
            })
        } else {
            Seq::empty()
        };
        assert(row_view(actions@) =~= acts);
    }
    two_rows_exec(utility, actions)
}

/// The text of a search result button: `[platform] song | singer`.
pub open spec fn result_label(item: MusicSearchItem) -> Seq<char> {
    "["@ + platform_label(item.platform) + "] "@ + item.song@ + " | "@ + item.singer@
}

/// The search results menu: a row per result that selects it (carrying the
/// search keyword), results whose action does not encode left out.
pub open spec fn search_rows(items: Seq<MusicSearchItem>, keyword: Option<Seq<char>>, k: int) -> Seq<
    Seq<ButtonView>,
>
    decreases k,
{
    if k <= 0 {
        Seq::empty()
    } else {
        let item = items[k - 1];
        search_rows(items, keyword, k - 1) + match action_button(
            result_label(item),
            ActionView::Select { platform: item.platform, id: item.id@, search_keyword: keyword },
        ) {
            Some(b) => seq![seq![b]],
            None => Seq::empty(),
        }
    }
}

pub fn search_menu(tracks: Vec<MusicSearchItem>, search_keyword: Option<&str>) -> (r: Vec<
    Vec<MenuButton>,
>)
    ensures
        menu_view(r@) == search_rows(
            tracks@,
            match search_keyword {
                Some(k) => Some(k@),
                None => None,
            },
            tracks@.len() as int,
        ),
{
    let ghost kw = match search_keyword {
        Some(k) => Some(k@),
        None => None,
    };
    let mut keyboard: Vec<Vec<MenuButton>> = Vec::new();
    let mut i: usize = 0;
    proof {
        assert(menu_view(keyboard@) =~= Seq::<Seq<ButtonView>>::empty());
    }
    while i < tracks.len()
        invariant
            i <= tracks@.len(),
            kw == match search_keyword {
                Some(k) => Some(k@),
                None => None::<Seq<char>>,
            },
            menu_view(keyboard@) == search_rows(tracks@, kw, i as int),
        decreases tracks.len() - i,
    {
        let item = &tracks[i];
        let mut text = String::from_str("[");
        push_str(&mut text, item.platform.label());
        push_str(&mut text, "] ");
        push_str(&mut text, item.song.as_str());
        push_str(&mut text, " | ");
        push_str(&mut text, item.singer.as_str());
        let a = MusicCallbackAction::Select {
            platform: item.platform,
            id: item.id.clone(),
            search_keyword: match search_keyword {
                Some(k) => Some(k.to_owned()),
                None => None,
            },
        };
        let ghost k0 = menu_view(keyboard@);
        match action_button_exec(text, &a) {
            Some(b) => {
                let ghost bv = b@;
                let mut row: Vec<MenuButton> = Vec::new();
                row.push(b);
                proof {
                    assert(row_view(row@) =~= seq![bv]);
                }
                let ghost rv = row_view(row@);
                keyboard.push(row);
                proof {
                    assert(menu_view(keyboard@) =~= k0.push(rv));
                    assert(menu_view(keyboard@) =~= k0 + seq![seq![bv]]);
                }
            },
            None => {
                proof {
                    assert(k0 + Seq::<Seq<ButtonView>>::empty() =~= k0);
                }
            },
        }
        i = i + 1;
    }
    keyboard
}

} // verus!

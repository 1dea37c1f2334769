//! A user's music settings: their defaults, how stored settings are
//! normalized, how a settings action changes them, and how they are shown.
use vstd::prelude::*;
use crate::callback::{MusicSettingAction, SettingView};
use crate::provider::{platform_of_alias, default_platform_spec, MusicPlatform};
use crate::text::{
    chars_of, eq_str, lower_spec, push_str, string_of, to_ascii_lowercase, trim_chars, trim_spec,
};

verus! {

/// A user's music settings.
#[derive(Clone, Debug, Eq, PartialEq)]
pub struct UserMusicSettings {
    pub user_id: i64,
    pub default_platform: String,
    pub quality: String,
    pub send_cover: bool,
    pub lyric_script: String,
}

/// The settings as plain values.
pub struct SettingsView {
    pub user_id: i64,
    pub default_platform: Seq<char>,
    pub quality: Seq<char>,
    pub send_cover: bool,
    pub lyric_script: Seq<char>,
}

impl View for UserMusicSettings {
    type V = SettingsView;

    open spec fn view(&self) -> SettingsView {
        SettingsView {
            user_id: self.user_id,
            default_platform: self.default_platform@,
            quality: self.quality@,
            send_cover: self.send_cover,
            lyric_script: self.lyric_script@,
        }
    }
}

pub open spec fn default_platform_value() -> Seq<char> {
    "soda"@
}

pub open spec fn default_quality_value() -> Seq<char> {
    "lossless"@
}

pub open spec fn default_lyric_script_value() -> Seq<char> {
    "simplified"@
}

/// The settings of a user who has set nothing.
pub open spec fn defaults_spec(user_id: i64) -> SettingsView {
    SettingsView {
        user_id,
        default_platform: default_platform_value(),
        quality: default_quality_value(),
        send_cover: true,
        lyric_script: default_lyric_script_value(),
    }
}

impl UserMusicSettings {
    pub fn defaults_for(user_id: i64) -> (r: Self)
        ensures
            r@ == defaults_spec(user_id),
    {
        UserMusicSettings {
            user_id,
            default_platform: default_platform(),
            quality: default_quality(),
            send_cover: default_true(),
            lyric_script: default_lyric_script(),
        }
    }
}

pub fn default_platform() -> (r: String)
    ensures
        r@ == default_platform_value(),
{
    String::from_str("soda")
}

pub fn default_quality() -> (r: String)
    ensures
        r@ == default_quality_value(),
{
    String::from_str("lossless")
}

pub fn default_lyric_script() -> (r: String)
    ensures
        r@ == default_lyric_script_value(),
{
    String::from_str("simplified")
}

pub fn default_true() -> (r: bool)
    ensures
        r,
{
    true
}

/// Whether a stored lyric script is one the bot knows.
pub open spec fn known_script(s: Seq<char>) -> bool {
    trim_spec(s) == "simplified"@ || trim_spec(s) == "traditional"@
}

/// Stored settings made usable: a blank platform or quality, and an unknown
/// lyric script, are replaced by the defaults.
pub open spec fn normalize_spec(s: SettingsView) -> SettingsView {
    SettingsView {
        user_id: s.user_id,
        default_platform: if trim_spec(s.default_platform).len() == 0 {
            default_platform_value()
        } else {
            s.default_platform
        },
        quality: if trim_spec(s.quality).len() == 0 {
            default_quality_value()
        } else {
            s.quality
        },
        send_cover: s.send_cover,
        lyric_script: if known_script(s.lyric_script) {
            s.lyric_script
        } else {
            default_lyric_script_value()
        },
    }
}

pub fn normalize_settings(settings: UserMusicSettings) -> (r: UserMusicSettings)
    ensures
        r@ == normalize_spec(settings@),
{
    let mut settings = settings;
    if crate::text::str_is_blank(settings.default_platform.as_str()) {
        settings.default_platform = default_platform();
    }
    if crate::text::str_is_blank(settings.quality.as_str()) {
        settings.quality = default_quality();
    }
    let sv = chars_of(settings.lyric_script.as_str());
    let t = trim_chars(&sv);
    if !(eq_str(&t, "simplified") || eq_str(&t, "traditional")) {
        settings.lyric_script = default_lyric_script();
    }
    settings
}

/// Normalizing settings a second time changes nothing.
pub proof fn lemma_normalize_idempotent(s: SettingsView)
    ensures
        normalize_spec(normalize_spec(s)) == normalize_spec(s),
{
    reveal_strlit("soda");
    reveal_strlit("lossless");
    reveal_strlit("simplified");
    assert(trim_spec("soda"@) == "soda"@);
    assert(trim_spec("lossless"@) == "lossless"@);
    assert(trim_spec("simplified"@) == "simplified"@);
}

/// The options of a setting: stored value and label, in menu order.
pub open spec fn platform_options() -> Seq<(Seq<char>, Seq<char>)> {
    seq![
        ("soda"@, "汽水"@),
        ("tencent"@, "QQ音乐"@),
        ("netease"@, "网易云"@),
        ("kugou"@, "酷狗"@),
        ("bilibili"@, "Bilibili"@),
        ("applemusic"@, "Apple Music"@),
    ]
}

pub open spec fn quality_options() -> Seq<(Seq<char>, Seq<char>)> {
    seq![
        ("standard"@, "标准"@),
        ("high"@, "高品质"@),
        ("lossless"@, "无损"@),
        ("hires"@, "Hi-Res"@),
    ]
}

pub open spec fn lyric_script_options() -> Seq<(Seq<char>, Seq<char>)> {
    seq![("simplified"@, "简体"@), ("traditional"@, "繁体"@)]
}

/// The label of the first option with the value, else the fallback.
pub open spec fn label_of(
    options: Seq<(Seq<char>, Seq<char>)>,
    value: Seq<char>,
    fallback: Seq<char>,
) -> Seq<char>
    decreases options.len(),
{
    if options.len() == 0 {
        fallback
    } else if options[0].0 == value {
        options[0].1
    } else {
        label_of(options.drop_first(), value, fallback)
    }
}

/// Whether some option has the value.
pub open spec fn is_option(options: Seq<(Seq<char>, Seq<char>)>, value: Seq<char>) -> bool
    decreases options.len(),
{
    options.len() > 0 && (options[0].0 == value || is_option(options.drop_first(), value))
}

pub fn platform_label(value: &str) -> (r: &'static str)
    ensures
        r@ == label_of(platform_options(), value@, "QQ音乐"@),
{
    proof {
        reveal_with_fuel(label_of, 7);
    }
    let v = chars_of(value);
    if eq_str(&v, "soda") {
        "汽水"
    } else if eq_str(&v, "tencent") {
        "QQ音乐"
    } else if eq_str(&v, "netease") {
        "网易云"
    } else if eq_str(&v, "kugou") {
        "酷狗"
    } else if eq_str(&v, "bilibili") {
        "Bilibili"
    } else if eq_str(&v, "applemusic") {
        "Apple Music"
    } else {
        "QQ音乐"
    }
}

pub fn quality_label(value: &str) -> (r: &'static str)
    ensures
        r@ == label_of(quality_options(), value@, "无损"@),
{
    proof {
        reveal_with_fuel(label_of, 5);
    }
    let v = chars_of(value);
    if eq_str(&v, "standard") {
        "标准"
    } else if eq_str(&v, "high") {
        "高品质"
    } else if eq_str(&v, "lossless") {
        "无损"
    } else if eq_str(&v, "hires") {
        "Hi-Res"
    } else {
        "无损"
    }
}

pub fn lyric_script_label(value: &str) -> (r: &'static str)
    ensures
        r@ == label_of(lyric_script_options(), value@, "简体"@),
{
    proof {
        reveal_with_fuel(label_of, 3);
    }
    let v = chars_of(value);
    if eq_str(&v, "simplified") {
        "简体"
    } else if eq_str(&v, "traditional") {
        "繁体"
    } else {
        "简体"
    }
}

/// A menu label, marked when it is the selected one.
pub fn selected_label(label: &str, selected: bool) -> (r: String)
    ensures
        r@ == (if selected {
            "✅ "@ + label@
        } else {
            label@
        }),
{
    if selected {
        crate::text::concat("✅ ", label)
    } else {
        label.to_owned()
    }
}

/// The platform the settings choose (QQ Music where the stored value names
/// none).
pub fn settings_platform(settings: &UserMusicSettings) -> (r: MusicPlatform)
    ensures
        r == match platform_of_alias(settings.default_platform@) {
            Some(p) => p,
            None => default_platform_spec(),
        },
{
    MusicPlatform::from_stored_default(settings.default_platform.as_str())
}

/// The text of the settings message.
pub open spec fn settings_text_spec(s: SettingsView) -> Seq<char> {
    "音乐设置\n\n🎵 默认平台: "@ + label_of(platform_options(), s.default_platform, "QQ音乐"@)
        + "\n🎧 默认音质: "@ + label_of(quality_options(), s.quality, "无损"@) + "\n🖼️ 发送封面: "@
        + (if s.send_cover {
        "开启"@
    } else {
        "关闭"@
    }) + "\n📝 歌词文字: "@ + label_of(lyric_script_options(), s.lyric_script, "简体"@)
        + "\n\n点击下方按钮修改设置"@
}

pub fn music_settings_text(settings: &UserMusicSettings) -> (r: String)
    ensures
        r@ == settings_text_spec(settings@),
{
    let mut r = String::from_str("音乐设置\n\n🎵 默认平台: ");
    push_str(&mut r, platform_label(settings.default_platform.as_str()));
    push_str(&mut r, "\n🎧 默认音质: ");
    push_str(&mut r, quality_label(settings.quality.as_str()));
    push_str(&mut r, "\n🖼️ 发送封面: ");
    push_str(
        &mut r,
        if settings.send_cover {
            "开启"
        } else {
            "关闭"
        },
    );
    push_str(&mut r, "\n📝 歌词文字: ");
    push_str(&mut r, lyric_script_label(settings.lyric_script.as_str()));
    push_str(&mut r, "\n\n点击下方按钮修改设置");
    r
}

/// The quality a cached file is looked up under: the setting in ASCII lower
/// case, `lossless` when blank.
pub open spec fn cache_quality_spec(quality: Seq<char>) -> Seq<char> {
    if trim_spec(quality).len() == 0 {
        "lossless"@
    } else {
        lower_spec(trim_spec(quality))
    }
}

pub fn music_cache_quality(settings: &UserMusicSettings) -> (r: String)
    ensures
        r@ == cache_quality_spec(settings.quality@),
{
    let v = chars_of(settings.quality.as_str());
    let t = trim_chars(&v);
    if t.len() == 0 {
        String::from_str("lossless")
    } else {
        let l = to_ascii_lowercase(&t);
        string_of(&l)
    }
}

/// What a settings action does: the new settings, whether they changed, and
/// the answer; or the refusal of an unknown value.
pub open spec fn apply_spec(s: SettingsView, a: SettingView) -> Result<
    (SettingsView, bool, Seq<char>),
    Seq<char>,
> {
    match a {
        SettingView::Platform(p) => if !is_option(platform_options(), p) {
            Err("不支持这个音乐平台"@)
        } else {
            Ok(
                (
                    SettingsView { default_platform: p, ..s },
                    s.default_platform != p,
                    "已切换到 "@ + label_of(platform_options(), p, "QQ音乐"@),
                ),
            )
        },
        SettingView::Quality(q) => if !is_option(quality_options(), q) {
            Err("不支持这个音质"@)
        } else {
            Ok(
                (
                    SettingsView { quality: q, ..s },
                    s.quality != q,
                    "音质已设置为 "@ + label_of(quality_options(), q, "无损"@),
                ),
            )
        },
        SettingView::Cover(on) => Ok(
            (
                SettingsView { send_cover: on, ..s },
                s.send_cover != on,
                if on {
                    "已开启发送封面"@
                } else {
                    "已关闭发送封面"@
                },
            ),
        ),
        SettingView::LyricScript(l) => if !is_option(lyric_script_options(), l) {
            Err("不支持这个歌词文字设置"@)
        } else {
            Ok(
                (
                    SettingsView { lyric_script: l, ..s },
                    s.lyric_script != l,
                    "歌词文字已设置为 "@ + label_of(lyric_script_options(), l, "简体"@),
                ),
            )
        },
    }
}

/// Whether the text is one of the option values.
fn option_known(v: &str, which: u8) -> (r: bool)
    requires
        which < 3,
    ensures
        r == is_option(
            if which == 0 {
                platform_options()
            } else if which == 1 {
                quality_options()
            } else {
                lyric_script_options()
            },
            v@,
        ),
{
    let c = chars_of(v);
    proof {
        reveal_with_fuel(is_option, 7);
    }
    if which == 0 {
        eq_str(&c, "soda") || eq_str(&c, "tencent") || eq_str(&c, "netease") || eq_str(&c, "kugou")
            || eq_str(&c, "bilibili") || eq_str(&c, "applemusic")
    } else if which == 1 {
        eq_str(&c, "standard") || eq_str(&c, "high") || eq_str(&c, "lossless") || eq_str(
            &c,
            "hires",
        )
    } else {
        eq_str(&c, "simplified") || eq_str(&c, "traditional")
    }
}

/// Applies a settings action: the changed settings and the answer, with
/// whether anything changed; an unknown value is refused and the settings
/// stay as they were.
pub fn apply_music_setting(settings: &mut UserMusicSettings, action: MusicSettingAction) -> (r:
    Result<(bool, String), &'static str>)
    ensures
        match apply_spec(old(settings)@, action@) {
            Ok((s, changed, text)) => final(settings)@ == s && (r matches Ok((c, t)) && c == changed
                && t@ == text),
            Err(m) => final(settings)@ == old(settings)@ && (r matches Err(e) && e@ == m),
        },
{
    let mut changed = false;
    let text: String = match action {
        MusicSettingAction::Platform(platform) => {
            if !option_known(platform.as_str(), 0) {
                return Err("不支持这个音乐平台");
            }
            if !crate::text::str_eq(settings.default_platform.as_str(), platform.as_str()) {
                settings.default_platform = platform.clone();
                changed = true;
            }
            crate::text::concat("已切换到 ", platform_label(platform.as_str()))
        },
        MusicSettingAction::Quality(quality) => {
            if !option_known(quality.as_str(), 1) {
                return Err("不支持这个音质");
            }
            if !crate::text::str_eq(settings.quality.as_str(), quality.as_str()) {
                settings.quality = quality.clone();
                changed = true;
            }
            crate::text::concat("音质已设置为 ", quality_label(quality.as_str()))
        },
        MusicSettingAction::Cover(enabled) => {
            if settings.send_cover != enabled {
                settings.send_cover = enabled;
                changed = true;
            }
            if enabled {
                String::from_str("已开启发送封面")
            } else {
                String::from_str("已关闭发送封面")
            }
        },
        MusicSettingAction::LyricScript(script) => {
            if !option_known(script.as_str(), 2) {
                return Err("不支持这个歌词文字设置");
            }
            if !crate::text::str_eq(settings.lyric_script.as_str(), script.as_str()) {
                settings.lyric_script = script.clone();
                changed = true;
            }
            crate::text::concat("歌词文字已设置为 ", lyric_script_label(script.as_str()))
        },
    };
    Ok((changed, text))
}

/// Applying the same settings action twice changes nothing the second time
/// and gives the same answer.
pub proof fn lemma_apply_setting_idempotent(s: SettingsView, a: SettingView)
    requires
        apply_spec(s, a) is Ok,
    ensures
        ({
            let (s1, _, t1) = apply_spec(s, a)->Ok_0;
            apply_spec(s1, a) == Ok::<(SettingsView, bool, Seq<char>), Seq<char>>((s1, false, t1))
        }),
{
}

} // verus!

//! The data of a ROM update query and the rules that turn a query into the
//! parameters the update server is asked with.
use vstd::prelude::*;
use crate::rom_links::{opt_str, DownloadLinks};
use crate::text::{
    chars_of, concat, eq_str, has_prefix, has_suffix, push_str, replace_all, replace_spec,
    starts_with_str, strip_suffix_all, string_of, sub_vec, trim_end_matches_str, upper_spec,
    ends_with_str,
};

verus! {

/// A device of the device list.
#[derive(Debug, Clone, PartialEq, Eq)]
pub struct Device {
    pub device_name: String,
    pub device_code_name: String,
    pub device_code: String,
}

/// A device as plain values.
pub struct DeviceView {
    pub name: Seq<char>,
    pub code_name: Seq<char>,
    pub code: Seq<char>,
}

impl View for Device {
    type V = DeviceView;

    open spec fn view(&self) -> DeviceView {
        DeviceView {
            name: self.device_name@,
            code_name: self.device_code_name@,
            code: self.device_code@,
        }
    }
}

/// The device list as published, with its version.
#[derive(Debug, Clone)]
pub struct RemoteDevices {
    pub devices: Vec<Device>,
    pub version: String,
}

/// A login session of an account.
#[derive(Debug, Clone, Default)]
pub struct LoginData {
    pub account_type: Option<String>,
    pub auth_result: Option<String>,
    pub description: Option<String>,
    pub ssecurity: Option<String>,
    pub service_token: Option<String>,
    pub user_id: Option<String>,
    pub c_user_id: Option<String>,
    pub pass_token: Option<String>,
}

/// What a user asks about: a device, its region, carrier, Android and
/// system version.
#[derive(Debug, Clone, Default)]
pub struct RomQuery {
    pub device_name: String,
    pub code_name: String,
    pub device_region: String,
    pub device_carrier: String,
    pub android_version: String,
    pub system_version: String,
    pub devices: Vec<Device>,
    pub login_data: Option<LoginData>,
}

/// A ROM package as shown to the user.
#[derive(Debug, Clone, Default)]
pub struct RomInfoData {
    pub rom_type: String,
    pub device: String,
    pub version: String,
    pub codebase: String,
    pub branch: String,
    pub big_version: String,
    pub file_name: String,
    pub file_size: String,
    pub md5: String,
    pub is_beta: bool,
    pub is_gov: bool,
    pub official1_download: String,
    pub official2_download: String,
    pub cdn1_download: String,
    pub cdn2_download: String,
    pub changelog: String,
    pub gentle_notice: String,
    pub fingerprint: String,
    pub security_patch_level: String,
    pub timestamp: String,
    pub sdk_level: String,
}

/// An icon of a changelog group.
#[derive(Debug, Clone, Default)]
pub struct IconInfoData {
    pub changelog: String,
    pub icon_name: String,
    pub icon_link: String,
}

/// An image of a changelog entry.
#[derive(Debug, Clone, Default)]
pub struct ImageInfoData {
    pub title: String,
    pub changelog: String,
    pub image_url: String,
    pub image_width: Option<i64>,
    pub image_height: Option<i64>,
}

/// A system app update.
#[derive(Debug, Clone, Default)]
pub struct XmsAppInfo {
    pub name: String,
    pub pack_name: String,
    pub version_code: String,
    pub file_name: String,
    pub file_size: String,
    pub md5: String,
    pub download_urls: Vec<String>,
}

/// The system app updates of a query.
#[derive(Debug, Clone, Default)]
pub struct XmsInfoData {
    pub has_update: bool,
    pub cur_ver: String,
    pub lst_ver: String,
    pub pkg_cnt: i64,
    pub prio: i64,
    pub apps: Vec<XmsAppInfo>,
    pub gentle_notice: String,
    pub changelog_items: Vec<ImageInfoData>,
    pub changelog_text: String,
}

/// The answer to a ROM query.
#[derive(Debug, Clone, Default)]
pub struct QueryResult {
    pub ok: bool,
    pub message: String,
    pub cur_rom_info: RomInfoData,
    pub inc_rom_info: RomInfoData,
    pub cur_icon_info: Vec<IconInfoData>,
    pub inc_icon_info: Vec<IconInfoData>,
    pub cur_image_info: Vec<ImageInfoData>,
    pub inc_image_info: Vec<ImageInfoData>,
    pub xms_info: XmsInfoData,
    pub no_ultimate_link: bool,
    pub is_fallback: bool,
    pub login_data: Option<LoginData>,
}

/// The answer to a download-link query.
#[derive(Debug, Clone, Default)]
pub struct RomDownloadResult {
    pub ok: bool,
    pub message: String,
    pub file_name: String,
    pub version: String,
    pub md5: String,
    pub file_size: String,
    pub links: DownloadLinks,
    pub no_ultimate_link: bool,
    pub login_data: Option<LoginData>,
}

/// The parameters of a query to the update server.
#[derive(Debug, Clone)]
pub struct RequestParams {
    pub region_code: String,
    pub carrier_code: String,
    pub code_name_ext: String,
    pub system_version_ext: String,
    pub branch_ext: String,
}

/// The region code of a region's name; empty for an unknown name.
pub open spec fn region_code_spec(n: Seq<char>) -> Seq<char> {
    if n == "Default (CN)"@ {
        "CN"@
    } else if n == "GL (MI)"@ {
        "MI"@
    } else if n == "EEA (EU)"@ {
        "EU"@
    } else if n == "CL"@ || n == "GT"@ || n == "ID"@ || n == "IN"@ || n == "JP"@ || n == "KR"@
        || n == "LM"@ || n == "MX"@ || n == "RU"@ || n == "TR"@ || n == "TW"@ || n == "ZA"@ {
        n
    } else {
        Seq::empty()
    }
}

pub fn region_code(name: &str) -> (r: String)
    ensures
        r@ == region_code_spec(name@),
{
    let c: &str = if str_is(name, "Default (CN)") {
        "CN"
    } else if str_is(name, "GL (MI)") {
        "MI"
    } else if str_is(name, "EEA (EU)") {
        "EU"
    } else if str_is(name, "CL") || str_is(name, "GT") || str_is(name, "ID") || str_is(name, "IN")
        || str_is(name, "JP") || str_is(name, "KR") || str_is(name, "LM") || str_is(name, "MX")
        || str_is(name, "RU") || str_is(name, "TR") || str_is(name, "TW") || str_is(name, "ZA") {
        name
    } else {
        ""
    };
    proof {
        reveal_strlit("");
    }
    c.to_owned()
}

/// Whether two strings are equal.
fn str_is(a: &str, b: &str) -> (r: bool)
    ensures
        r == (a@ == b@),
{
    crate::text::str_eq(a, b)
}

/// The suffix a region adds to a device's code name; empty for China and
/// unknown names.
pub open spec fn region_code_name_spec(n: Seq<char>) -> Seq<char> {
    if n == "GL (MI)"@ {
        "_global"@
    } else if n == "EEA (EU)"@ {
        "_eea_global"@
    } else if n == "CL"@ {
        "_cl_global"@
    } else if n == "GT"@ {
        "_gt_global"@
    } else if n == "ID"@ {
        "_id_global"@
    } else if n == "IN"@ {
        "_in_global"@
    } else if n == "JP"@ {
        "_jp_global"@
    } else if n == "KR"@ {
        "_kr_global"@
    } else if n == "LM"@ {
        "_lm_global"@
    } else if n == "MX"@ {
        "_mx_global"@
    } else if n == "RU"@ {
        "_ru_global"@
    } else if n == "TR"@ {
        "_tr_global"@
    } else if n == "TW"@ {
        "_tw_global"@
    } else if n == "ZA"@ {
        "_za_global"@
    } else {
        Seq::empty()
    }
}

pub fn region_code_name(name: &str) -> (r: String)
    ensures
        r@ == region_code_name_spec(name@),
{
    let c: &str = if str_is(name, "GL (MI)") {
        "_global"
    } else if str_is(name, "EEA (EU)") {
        "_eea_global"
    } else if str_is(name, "CL") {
        "_cl_global"
    } else if str_is(name, "GT") {
        "_gt_global"
    } else if str_is(name, "ID") {
        "_id_global"
    } else if str_is(name, "IN") {
        "_in_global"
    } else if str_is(name, "JP") {
        "_jp_global"
    } else if str_is(name, "KR") {
        "_kr_global"
    } else if str_is(name, "LM") {
        "_lm_global"
    } else if str_is(name, "MX") {
        "_mx_global"
    } else if str_is(name, "RU") {
        "_ru_global"
    } else if str_is(name, "TR") {
        "_tr_global"
    } else if str_is(name, "TW") {
        "_tw_global"
    } else if str_is(name, "ZA") {
        "_za_global"
    } else {
        ""
    };
    proof {
        reveal_strlit("");
    }
    c.to_owned()
}

/// The carrier code of a carrier's name; empty for an unknown name.
pub open spec fn carrier_code_spec(n: Seq<char>) -> Seq<char> {
    if n == "Default (Xiaomi)"@ {
        "XM"@
    } else if n == "MiStore (Demo)"@ {
        "DM"@
    } else if n == "DeviceLockController"@ {
        "DC"@
    } else if n == "AT&T"@ {
        "AT"@
    } else if n == "Bouygues"@ {
        "BY"@
    } else if n == "Claro"@ {
        "CR"@
    } else if n == "Entel"@ {
        "EN"@
    } else if n == "3HK"@ {
        "HG"@
    } else if n == "KDDI"@ {
        "KD"@
    } else if n == "Movistar"@ {
        "MS"@
    } else if n == "MTN"@ {
        "MT"@
    } else if n == "Orange"@ {
        "OR"@
    } else if n == "SoftBank"@ {
        "SB"@
    } else if n == "Altice France"@ {
        "SF"@
    } else if n == "Telefónica"@ {
        "TF"@
    } else if n == "Tigo"@ {
        "TG"@
    } else if n == "TIM"@ {
        "TI"@
    } else if n == "Vodacom"@ {
        "VC"@
    } else if n == "Vodafone"@ {
        "VF"@
    } else {
        Seq::empty()
    }
}

pub fn carrier_code(name: &str) -> (r: String)
    ensures
        r@ == carrier_code_spec(name@),
{
    let c: &str = if str_is(name, "Default (Xiaomi)") {
        "XM"
    } else if str_is(name, "MiStore (Demo)") {
        "DM"
    } else if str_is(name, "DeviceLockController") {
        "DC"
    } else if str_is(name, "AT&T") {
        "AT"
    } else if str_is(name, "Bouygues") {
        "BY"
    } else if str_is(name, "Claro") {
        "CR"
    } else if str_is(name, "Entel") {
        "EN"
    } else if str_is(name, "3HK") {
        "HG"
    } else if str_is(name, "KDDI") {
        "KD"
    } else if str_is(name, "Movistar") {
        "MS"
    } else if str_is(name, "MTN") {
        "MT"
    } else if str_is(name, "Orange") {
        "OR"
    } else if str_is(name, "SoftBank") {
        "SB"
    } else if str_is(name, "Altice France") {
        "SF"
    } else if str_is(name, "Telefónica") {
        "TF"
    } else if str_is(name, "Tigo") {
        "TG"
    } else if str_is(name, "TIM") {
        "TI"
    } else if str_is(name, "Vodacom") {
        "VC"
    } else if str_is(name, "Vodafone") {
        "VF"
    } else {
        ""
    };
    proof {
        reveal_strlit("");
    }
    c.to_owned()
}

/// The suffix a carrier adds to a device's code name; empty for the
/// default carriers and unknown names.
pub open spec fn carrier_code_name_spec(n: Seq<char>) -> Seq<char> {
    if n == "DeviceLockController"@ {
        "_dc"@
    } else if n == "AT&T"@ {
        "_at"@
    } else if n == "Bouygues"@ {
        "_by"@
    } else if n == "Claro"@ {
        "_cr"@
    } else if n == "Entel"@ {
        "_en"@
    } else if n == "3HK"@ {
        "_hg"@
    } else if n == "KDDI"@ {
        "_kd"@
    } else if n == "Movistar"@ {
        "_ms"@
    } else if n == "MTN"@ {
        "_mt"@
    } else if n == "Orange"@ {
        "_or"@
    } else if n == "SoftBank"@ {
        "_ti"@
    } else if n == "Altice France"@ {
        "_sf"@
    } else if n == "Telefónica"@ {
        "_tf"@
    } else if n == "Tigo"@ {
        "_tg"@
    } else if n == "TIM"@ {
        "_tm"@
    } else if n == "Vodacom"@ {
        "_vc"@
    } else if n == "Vodafone"@ {
        "_vf"@
    } else {
        Seq::empty()
    }
}

pub fn carrier_code_name(name: &str) -> (r: String)
    ensures
        r@ == carrier_code_name_spec(name@),
{
    let c: &str = if str_is(name, "DeviceLockController") {
        "_dc"
    } else if str_is(name, "AT&T") {
        "_at"
    } else if str_is(name, "Bouygues") {
        "_by"
    } else if str_is(name, "Claro") {
        "_cr"
    } else if str_is(name, "Entel") {
        "_en"
    } else if str_is(name, "3HK") {
        "_hg"
    } else if str_is(name, "KDDI") {
        "_kd"
    } else if str_is(name, "Movistar") {
        "_ms"
    } else if str_is(name, "MTN") {
        "_mt"
    } else if str_is(name, "Orange") {
        "_or"
    } else if str_is(name, "SoftBank") {
        "_ti"
    } else if str_is(name, "Altice France") {
        "_sf"
    } else if str_is(name, "Telefónica") {
        "_tf"
    } else if str_is(name, "Tigo") {
        "_tg"
    } else if str_is(name, "TIM") {
        "_tm"
    } else if str_is(name, "Vodacom") {
        "_vc"
    } else if str_is(name, "Vodafone") {
        "_vf"
    } else {
        ""
    };
    proof {
        reveal_strlit("");
    }
    c.to_owned()
}

/// The letter of an Android version.
pub open spec fn android_letter_spec(v: Seq<char>) -> Option<Seq<char>> {
    if v == "17.0"@ {
        Some("X"@)
    } else if v == "16.0"@ {
        Some("W"@)
    } else if v == "15.0"@ {
        Some("V"@)
    } else if v == "14.0"@ {
        Some("U"@)
    } else if v == "13.0"@ {
        Some("T"@)
    } else if v == "12.0"@ {
        Some("S"@)
    } else if v == "11.0"@ {
        Some("R"@)
    } else if v == "10.0"@ {
        Some("Q"@)
    } else if v == "9.0"@ {
        Some("P"@)
    } else if v == "8.1"@ || v == "8.0"@ {
        Some("O"@)
    } else if v == "7.1"@ || v == "7.0"@ {
        Some("N"@)
    } else if v == "6.0"@ {
        Some("M"@)
    } else if v == "5.1"@ || v == "5.0"@ {
        Some("L"@)
    } else if v == "4.4"@ {
        Some("K"@)
    } else {
        None
    }
}

pub fn android_letter(version: &str) -> (r: Option<&'static str>)
    ensures
        opt_str(r) == android_letter_spec(version@),
{
    if str_is(version, "17.0") {
        Some("X")
    } else if str_is(version, "16.0") {
        Some("W")
    } else if str_is(version, "15.0") {
        Some("V")
    } else if str_is(version, "14.0") {
        Some("U")
    } else if str_is(version, "13.0") {
        Some("T")
    } else if str_is(version, "12.0") {
        Some("S")
    } else if str_is(version, "11.0") {
        Some("R")
    } else if str_is(version, "10.0") {
        Some("Q")
    } else if str_is(version, "9.0") {
        Some("P")
    } else if str_is(version, "8.1") || str_is(version, "8.0") {
        Some("O")
    } else if str_is(version, "7.1") || str_is(version, "7.0") {
        Some("N")
    } else if str_is(version, "6.0") {
        Some("M")
    } else if str_is(version, "5.1") || str_is(version, "5.0") {
        Some("L")
    } else if str_is(version, "4.4") {
        Some("K")
    } else {
        None
    }
}

/// The devices known without the published list.
pub open spec fn embedded_spec() -> Seq<DeviceView> {
    seq![
        DeviceView { name: "Xiaomi 17"@, code_name: "pudding"@, code: "PC"@ },
        DeviceView { name: "Xiaomi 17 Pro"@, code_name: "pandora"@, code: "BL"@ },
        DeviceView { name: "Xiaomi 17 Pro Max"@, code_name: "popsicle"@, code: "PB"@ },
        DeviceView { name: "Xiaomi 17 Ultra"@, code_name: "nezha"@, code: "PA"@ },
        DeviceView { name: "Xiaomi 17 Max"@, code_name: "byron"@, code: "AF"@ },
    ]
}

pub open spec fn device_views(v: Seq<Device>) -> Seq<DeviceView> {
    v.map_values(|d: Device| d@)
}

fn device(name: &str, code_name: &str, code: &str) -> (d: Device)
    ensures
        d@ == (DeviceView { name: name@, code_name: code_name@, code: code@ }),
{
    Device {
        device_name: name.to_owned(),
        device_code_name: code_name.to_owned(),
        device_code: code.to_owned(),
    }
}

pub fn embedded_devices() -> (r: Vec<Device>)
    ensures
        device_views(r@) == embedded_spec(),
{
    let mut r: Vec<Device> = Vec::new();
    r.push(device("Xiaomi 17", "pudding", "PC"));
    r.push(device("Xiaomi 17 Pro", "pandora", "BL"));
    r.push(device("Xiaomi 17 Pro Max", "popsicle", "PB"));
    r.push(device("Xiaomi 17 Ultra", "nezha", "PA"));
    r.push(device("Xiaomi 17 Max", "byron", "AF"));
    proof {
        assert(device_views(r@) =~= embedded_spec());
    }
    r
}

/// The code of the first device with the code name.
pub open spec fn first_code(devs: Seq<DeviceView>, code_name: Seq<char>) -> Option<Seq<char>>
    decreases devs.len(),
{
    if devs.len() == 0 {
        None
    } else if devs[0].code_name == code_name {
        Some(devs[0].code)
    } else {
        first_code(devs.drop_first(), code_name)
    }
}

fn find_code(devices: &[Device], code_name: &str) -> (r: Option<String>)
    ensures
        crate::provider::opt_view(r) == first_code(device_views(devices@), code_name@),
{
    let mut i: usize = 0;
    proof {
        assert(device_views(devices@).skip(0) =~= device_views(devices@));
    }
    while i < devices.len()
        invariant
            i <= devices.len(),
            first_code(device_views(devices@), code_name@) == first_code(
                device_views(devices@).skip(i as int),
                code_name@,
            ),
        decreases devices.len() - i,
    {
        let ghost rest = device_views(devices@).skip(i as int);
        proof {
            assert(rest[0] == devices@[i as int]@);
            assert(rest.drop_first() =~= device_views(devices@).skip(i + 1));
        }
        if str_is(devices[i].device_code_name.as_str(), code_name) {
            return Some(devices[i].device_code.clone());
        }
        i = i + 1;
    }
    None
}

/// The code of a device: from the query's list, else the embedded list,
/// else the published list.
pub open spec fn lookup_code(
    devs: Seq<DeviceView>,
    code_name: Seq<char>,
    remote: Seq<DeviceView>,
) -> Option<Seq<char>> {
    match first_code(devs, code_name) {
        Some(c) => Some(c),
        None => match first_code(embedded_spec(), code_name) {
            Some(c) => Some(c),
            None => first_code(remote, code_name),
        },
    }
}

/// The device part of an automatic system version: the Android letter, the
/// device code, the region and carrier codes; empty where the Android
/// version or the device is unknown.
pub open spec fn device_code_spec(
    devs: Seq<DeviceView>,
    android_version: Seq<char>,
    code_name: Seq<char>,
    region_code: Seq<char>,
    carrier_code: Seq<char>,
    remote: Seq<DeviceView>,
) -> Seq<char> {
    match android_letter_spec(android_version) {
        None => Seq::empty(),
        Some(l) => match lookup_code(devs, code_name, remote) {
            Some(c) => l + c + region_code + carrier_code,
            None => Seq::empty(),
        },
    }
}

/// Whether the device code can only come from the published device list.
pub open spec fn needs_remote_spec(
    devs: Seq<DeviceView>,
    android_version: Seq<char>,
    code_name: Seq<char>,
) -> bool {
    android_letter_spec(android_version) is Some && first_code(devs, code_name) is None
        && first_code(embedded_spec(), code_name) is None
}

/// Whether finding the device code needs the published device list.
pub fn needs_remote_devices(devices: &[Device], android_version: &str, code_name: &str) -> (r:
    bool)
    ensures
        r == needs_remote_spec(device_views(devices@), android_version@, code_name@),
{
    if android_letter(android_version).is_none() {
        return false;
    }
    if find_code(devices, code_name).is_some() {
        return false;
    }
    let embedded = embedded_devices();
    find_code(&embedded, code_name).is_none()
}

/// The device part of an automatic system version; `remote` is the
/// published device list, read only where the other two lists lack the
/// device.
pub fn device_code_of(
    devices: &[Device],
    android_version: &str,
    code_name: &str,
    region_code: &str,
    carrier_code: &str,
    remote: &[Device],
) -> (r: String)
    ensures
        r@ == device_code_spec(
            device_views(devices@),
            android_version@,
            code_name@,
            region_code@,
            carrier_code@,
            device_views(remote@),
        ),
{
    let letter = match android_letter(android_version) {
        Some(l) => l,
        None => return String::new(),
    };
    let code = match find_code(devices, code_name) {
        Some(c) => Some(c),
        None => {
            let embedded = embedded_devices();
            match find_code(&embedded, code_name) {
                Some(c) => Some(c),
                None => find_code(remote, code_name),
            }
        },
    };
    match code {
        Some(c) => {
            let mut r = letter.to_owned();
            push_str(&mut r, c.as_str());
            push_str(&mut r, region_code);
            push_str(&mut r, carrier_code);
            r
        },
        None => String::new(),
    }
}

/// The upper case of a text by Unicode's rules (`str::to_uppercase`).
pub uninterp spec fn upper_text(s: Seq<char>) -> Seq<char>;

pub open spec fn all_ascii(s: Seq<char>) -> bool {
    forall|i: int| 0 <= i < s.len() ==> (s[i] as u32) < 128
}

/// `str::to_uppercase`: the Unicode upper case of a text; for ASCII text
/// that is the letters `a` to `z` made `A` to `Z`.
#[verifier::external_body]
fn to_upper(s: &str) -> (r: String)
    ensures
        r@ == upper_text(s@),
        all_ascii(s@) ==> r@ == upper_spec(s@),
{
    s.to_uppercase()
}

/// The system version asked about: upper case, `OS1` read as `V816`, and a
/// trailing `AUTO` replaced by the device part.
pub open spec fn system_version_ext_spec(system_version: Seq<char>, device_code: Seq<char>) -> Seq<
    char,
> {
    let up = upper_text(system_version);
    let s1 = if has_prefix(up, "OS1"@) {
        "V816"@ + up.skip(3)
    } else {
        up
    };
    if has_suffix(s1, "AUTO"@) {
        strip_suffix_all(s1, "AUTO"@) + device_code
    } else {
        s1
    }
}

/// The code name asked about: with the region's and carrier's suffixes for
/// a global region, `_demo` for the Chinese demo carrier, else with the
/// carrier's suffix.
pub open spec fn code_name_ext_spec(
    code_name: Seq<char>,
    region: Seq<char>,
    carrier: Seq<char>,
) -> Seq<char> {
    let rcn = region_code_name_spec(region);
    let ccn = carrier_code_name_spec(carrier);
    if rcn.len() > 0 {
        code_name + replace_spec(rcn, "_global"@, Seq::empty()) + ccn + "_global"@
    } else if region_code_spec(region) == "CN"@ && carrier_code_spec(carrier) == "DM"@ {
        code_name + "_demo"@
    } else {
        code_name + ccn
    }
}

/// The branch asked about: `X` for a development version, else `F`.
pub open spec fn branch_ext_spec(system_version: Seq<char>) -> Seq<char> {
    if has_suffix(upper_text(system_version), ".DEV"@) {
        "X"@
    } else {
        "F"@
    }
}

/// Builds the parameters of a query; `remote` is the published device
/// list, read only where the query's and the embedded lists lack the device
/// (see `needs_remote_devices`).
pub fn build_request_params(query: &RomQuery, remote: &[Device]) -> (r: RequestParams)
    ensures
        r.region_code@ == region_code_spec(query.device_region@),
        r.carrier_code@ == carrier_code_spec(query.device_carrier@),
        r.code_name_ext@ == code_name_ext_spec(
            query.code_name@,
            query.device_region@,
            query.device_carrier@,
        ),
        r.system_version_ext@ == system_version_ext_spec(
            query.system_version@,
            device_code_spec(
                device_views(query.devices@),
                query.android_version@,
                query.code_name@,
                region_code_spec(query.device_region@),
                carrier_code_spec(query.device_carrier@),
                device_views(remote@),
            ),
        ),
        r.branch_ext@ == branch_ext_spec(query.system_version@),
{
    let region_code = region_code(query.device_region.as_str());
    let carrier_code = carrier_code(query.device_carrier.as_str());
    let device_code = device_code_of(
        query.devices.as_slice(),
        query.android_version.as_str(),
        query.code_name.as_str(),
        region_code.as_str(),
        carrier_code.as_str(),
        remote,
    );
    let region_code_name = region_code_name(query.device_region.as_str());
    let carrier_code_name = carrier_code_name(query.device_carrier.as_str());
    let rv = chars_of(region_code_name.as_str());
    let code_name_ext = if rv.len() > 0 {
        proof {
            reveal_strlit("_global");
        }
        let stripped = replace_all(&rv, "_global", "");
        let mut s = query.code_name.clone();
        push_str(&mut s, string_of(&stripped).as_str());
        push_str(&mut s, carrier_code_name.as_str());
        push_str(&mut s, "_global");
        proof {
            reveal_strlit("");
            assert(""@ =~= Seq::<char>::empty());
            assert(s@ =~= query.code_name@ + stripped@ + carrier_code_name@ + "_global"@);
        }
        s
    } else if str_is(region_code.as_str(), "CN") && str_is(carrier_code.as_str(), "DM") {
        concat(query.code_name.as_str(), "_demo")
    } else {
        concat(query.code_name.as_str(), carrier_code_name.as_str())
    };
    let upper = to_upper(query.system_version.as_str());
    let uv = chars_of(upper.as_str());
    let mut sv: Vec<char> = if starts_with_str(&uv, "OS1") {
        proof {
            reveal_strlit("OS1");
        }
        let mut t = chars_of("V816");
        let tail = sub_vec(&uv, 3, uv.len());
        crate::text::extend_chars(&mut t, &tail);
        proof {
            reveal_strlit("OS1");
            assert(tail@ =~= uv@.skip(3));
        }
        t
    } else {
        uv.clone()
    };
    if ends_with_str(&sv, "AUTO") {
        proof {
            reveal_strlit("AUTO");
        }
        let mut t = trim_end_matches_str(&sv, "AUTO");
        crate::text::extend_str(&mut t, device_code.as_str());
        sv = t;
    }
    let branch: &str = if ends_with_str(&uv, ".DEV") {
        "X"
    } else {
        "F"
    };
    proof {
        assert(query.code_name@ == query.code_name@);
    }
    RequestParams {
        region_code,
        carrier_code,
        code_name_ext,
        system_version_ext: string_of(&sv),
        branch_ext: branch.to_owned(),
    }
}

} // verus!

verus! {

/// Whether a byte is ASCII whitespace (`u8::is_ascii_whitespace`).
pub open spec fn ascii_ws_byte(b: u8) -> bool {
    b == 32 || b == 9 || b == 10 || b == 12 || b == 13
}

/// The first position from `j` on that holds no ASCII whitespace, or the
/// length.
pub open spec fn next_solid(b: Seq<u8>, j: int) -> int
    decreases b.len() - j,
{
    if j < 0 || j >= b.len() {
        b.len() as int
    } else if ascii_ws_byte(b[j]) {
        next_solid(b, j + 1)
    } else {
        j
    }
}

/// Whether the byte at `i` is a comma that only whitespace separates from a
/// closing brace or bracket.
pub open spec fn trailing_comma(b: Seq<u8>, i: int) -> bool {
    let n = next_solid(b, i + 1);
    b[i] == 44 && n < b.len() && (b[n] == 125 || b[n] == 93)
}

/// The first `n` bytes with their trailing commas dropped, each kept byte
/// read as the character of the same number.
pub open spec fn without_trailing_commas(b: Seq<u8>, n: int) -> Seq<char>
    decreases n,
{
    if n <= 0 {
        Seq::empty()
    } else if trailing_comma(b, n - 1) {
        without_trailing_commas(b, n - 1)
    } else {
        without_trailing_commas(b, n - 1).push(b[n - 1] as char)
    }
}

/// Drops the commas that stand right before a closing brace or bracket
/// (whitespace between allowed), so that a lenient JSON text parses.
pub fn clean_json_trailing_commas(raw: &str) -> (r: String)
    ensures
        r@ == without_trailing_commas(
            vstd::utf8::encode_utf8(raw@),
            vstd::utf8::encode_utf8(raw@).len() as int,
        ),
{
    let bytes = raw.as_bytes();
    let mut out = String::new();
    let mut index: usize = 0;
    while index < bytes.len()
        invariant
            index <= bytes.len(),
            out@ == without_trailing_commas(bytes@, index as int),
        decreases bytes.len() - index,
    {
        if bytes[index] == 44u8 {
            let mut lookahead = index + 1;
            while lookahead < bytes.len() && (bytes[lookahead] == 32u8 || bytes[lookahead] == 9u8
                || bytes[lookahead] == 10u8 || bytes[lookahead] == 12u8 || bytes[lookahead] == 13u8)
                invariant
                    index + 1 <= lookahead <= bytes.len(),
                    next_solid(bytes@, index + 1) == next_solid(bytes@, lookahead as int),
                decreases bytes.len() - lookahead,
            {
                lookahead = lookahead + 1;
            }
            if lookahead < bytes.len() && (bytes[lookahead] == 125u8 || bytes[lookahead] == 93u8) {
                index = index + 1;
                continue;
            }
        }
        crate::text::push_char(&mut out, bytes[index] as char);
        index = index + 1;
    }
    out
}

/// The address of a page of the account service.
pub open spec fn account_url_spec(p: Seq<char>) -> Seq<char> {
    if has_prefix(p, "http://"@) || has_prefix(p, "https://"@) {
        p
    } else if p.len() > 0 && p[0] == '/' {
        "https://account.xiaomi.com"@ + p
    } else {
        "https://account.xiaomi.com"@ + "/"@ + p
    }
}

pub fn account_url(path_or_url: &str) -> (r: String)
    ensures
        r@ == account_url_spec(path_or_url@),
{
    let v = chars_of(path_or_url);
    if starts_with_str(&v, "http://") || starts_with_str(&v, "https://") {
        path_or_url.to_owned()
    } else if v.len() > 0 && v[0] == '/' {
        concat("https://account.xiaomi.com", path_or_url)
    } else {
        let mut r = String::from_str("https://account.xiaomi.com");
        push_str(&mut r, "/");
        push_str(&mut r, path_or_url);
        r
    }
}

/// The cookie that carries an identity session.
pub fn identity_session_cookie(identity_session: &str) -> (r: String)
    ensures
        r@ == "identity_session="@ + identity_session@,
{
    concat("identity_session=", identity_session)
}

/// The value, or `"null"` where it is missing.
pub fn kmp_nullable_string(value: Option<&str>) -> (r: String)
    ensures
        r@ == crate::rom_links::segment_spec(opt_str(value)),
{
    match value {
        Some(v) => v.to_owned(),
        None => String::from_str("null"),
    }
}

/// The address of an image on a mirror: the mirror made `https`, then the
/// path.
pub open spec fn image_link_spec(mirror: Seq<char>, path: Option<Seq<char>>) -> Seq<char> {
    replace_spec(mirror, "http://"@, "https://"@) + match path {
        Some(p) => p,
        None => Seq::empty(),
    }
}

pub fn image_link(mirror: &str, path: Option<&str>) -> (r: String)
    ensures
        r@ == image_link_spec(mirror@, opt_str(path)),
{
    let mv = chars_of(mirror);
    proof {
        reveal_strlit("http://");
    }
    let mut out = replace_all(&mv, "http://", "https://");
    match path {
        Some(p) => crate::text::extend_str(&mut out, p),
        None => {
            proof {
                assert(out@ + Seq::<char>::empty() =~= out@);
            }
        },
    }
    string_of(&out)
}

/// A JSON field as the library reads it.
#[derive(Debug, Clone, PartialEq, Eq)]
pub enum JsonScalar {
    Text(String),
    Number(String),
    Flag(bool),
    Null,
    List,
    Object,
}

/// A JSON field as plain values: a number by its JSON text.
pub enum ScalarView {
    Text(Seq<char>),
    Number(Seq<char>),
    Flag(bool),
    Null,
    List,
    Object,
}

impl View for JsonScalar {
    type V = ScalarView;

    open spec fn view(&self) -> ScalarView {
        match self {
            JsonScalar::Text(t) => ScalarView::Text(t@),
            JsonScalar::Number(n) => ScalarView::Number(n@),
            JsonScalar::Flag(b) => ScalarView::Flag(*b),
            JsonScalar::Null => ScalarView::Null,
            JsonScalar::List => ScalarView::List,
            JsonScalar::Object => ScalarView::Object,
        }
    }
}

pub open spec fn str_views(v: Seq<&str>) -> Seq<Seq<char>> {
    v.map_values(|s: &str| s@)
}

pub open spec fn scalar_views(v: Seq<JsonScalar>) -> Seq<ScalarView> {
    v.map_values(|s: JsonScalar| s@)
}

/// The named fields of a JSON text, each read as a scalar; `None` where the
/// text is not JSON.
pub uninterp spec fn json_fields_spec(text: Seq<char>, keys: Seq<Seq<char>>) -> Option<
    Seq<ScalarView>,
>;

/// `serde_json::from_str` into a `Value`, then each key looked up
/// (`Value`'s index by `&str`, `Null` where it is missing): a string, number
/// (by its text) or boolean field as such, `null` (or a missing field), an
/// array or an object by its kind. Gives
/// one field per key, or `None` where the text does not parse.
#[verifier::external_body]
fn json_fields(text: &str, keys: &[&str]) -> (r: Option<Vec<JsonScalar>>)
    ensures
        r matches Some(v) ==> json_fields_spec(text@, str_views(keys@)) == Some(scalar_views(v@))
            && v.len() == keys.len(),
        r is None ==> json_fields_spec(text@, str_views(keys@)) is None,
{
    let value: serde_json::Value = serde_json::from_str(text).ok()?;
    let mut out = Vec::new();
    for key in keys {
        out.push(
            match &value[*key] {
                serde_json::Value::String(t) => JsonScalar::Text(t.clone()),
                serde_json::Value::Number(n) => JsonScalar::Number(n.to_string()),
                serde_json::Value::Bool(b) => JsonScalar::Flag(*b),
                serde_json::Value::Null => JsonScalar::Null,
                serde_json::Value::Array(_) => JsonScalar::List,
                serde_json::Value::Object(_) => JsonScalar::Object,
            },
        );
    }
    Some(out)
}

/// The text of a scalar field: a non-empty string other than `null`, a
/// number, or a boolean.
pub open spec fn scalar_text(v: ScalarView) -> Option<Seq<char>> {
    match v {
        ScalarView::Text(t) => if t.len() > 0 && t != "null"@ {
            Some(t)
        } else {
            None
        },
        ScalarView::Number(n) => Some(n),
        ScalarView::Flag(b) => Some(
            if b {
                "true"@
            } else {
                "false"@
            },
        ),
        ScalarView::Null | ScalarView::List | ScalarView::Object => None,
    }
}

pub fn json_scalar_string(value: &JsonScalar) -> (r: Option<String>)
    ensures
        crate::provider::opt_view(r) == scalar_text(value@),
{
    match value {
        JsonScalar::Text(t) => {
            let tv = chars_of(t.as_str());
            if tv.len() > 0 && !str_is(t.as_str(), "null") {
                Some(t.clone())
            } else {
                None
            }
        },
        JsonScalar::Number(n) => Some(n.clone()),
        JsonScalar::Flag(b) => if *b {
            Some(String::from_str("true"))
        } else {
            Some(String::from_str("false"))
        },
        JsonScalar::Null | JsonScalar::List | JsonScalar::Object => None,
    }
}

pub open spec fn or_else(a: Option<Seq<char>>, b: Option<Seq<char>>) -> Option<Seq<char>> {
    match a {
        Some(x) => Some(x),
        None => b,
    }
}

pub open spec fn plaintext_prefix() -> Seq<char> {
    "Server returned plaintext response: "@
}

/// The keys read from a plaintext server answer, in order: the code, then
/// the description under three names.
pub open spec fn answer_keys() -> Seq<Seq<char>> {
    seq!["code"@, "desc"@, "description"@, "message"@]
}

/// The readable error for a plaintext answer: its code and description
/// where the JSON gives them, else the whole text; then the context where
/// one is given.
pub open spec fn plaintext_error_spec(
    trimmed: Seq<char>,
    fields: Option<Seq<ScalarView>>,
    context: Option<Seq<char>>,
) -> Seq<char> {
    let fallback = plaintext_prefix() + trimmed;
    let base = match fields {
        None => fallback,
        Some(f) => {
            let code = scalar_text(f[0]);
            let desc = or_else(scalar_text(f[1]), or_else(scalar_text(f[2]), scalar_text(f[3])));
            match (code, desc) {
                (Some(c), Some(d)) => plaintext_prefix() + "code "@ + c + ", "@ + d,
                (Some(c), None) => plaintext_prefix() + "code "@ + c,
                (None, Some(d)) => plaintext_prefix() + d,
                (None, None) => fallback,
            }
        },
    };
    match context {
        Some(c) => if c.len() > 0 {
            base + "; context: "@ + c
        } else {
            base
        },
        None => base,
    }
}

/// The readable error for a plaintext server answer, from the fields read
/// from it (code, desc, description, message).
pub fn plaintext_error(trimmed: &str, fields: Option<Vec<JsonScalar>>, context: Option<&str>) -> (r:
    String)
    requires
        fields matches Some(f) ==> f.len() == 4,
    ensures
        r@ == plaintext_error_spec(
            trimmed@,
            match fields {
                Some(f) => Some(scalar_views(f@)),
                None => None,
            },
            opt_str(context),
        ),
{
    let mut readable = String::from_str("Server returned plaintext response: ");
    let mut fallback = true;
    match &fields {
        Some(f) => {
            let code = json_scalar_string(&f[0]);
            let desc = match json_scalar_string(&f[1]) {
                Some(d) => Some(d),
                None => match json_scalar_string(&f[2]) {
                    Some(d) => Some(d),
                    None => json_scalar_string(&f[3]),
                },
            };
            proof {
                assert(scalar_views(f@)[0] == f@[0]@);
                assert(scalar_views(f@)[1] == f@[1]@);
                assert(scalar_views(f@)[2] == f@[2]@);
                assert(scalar_views(f@)[3] == f@[3]@);
            }
            match (code, desc) {
                (Some(c), Some(d)) => {
                    push_str(&mut readable, "code ");
                    push_str(&mut readable, c.as_str());
                    push_str(&mut readable, ", ");
                    push_str(&mut readable, d.as_str());
                    fallback = false;
                },
                (Some(c), None) => {
                    push_str(&mut readable, "code ");
                    push_str(&mut readable, c.as_str());
                    fallback = false;
                },
                (None, Some(d)) => {
                    push_str(&mut readable, d.as_str());
                    fallback = false;
                },
                (None, None) => {},
            }
        },
        None => {},
    }
    if fallback {
        push_str(&mut readable, trimmed);
    }
    match context {
        Some(c) => {
            let cv = chars_of(c);
            if cv.len() > 0 {
                push_str(&mut readable, "; context: ");
                push_str(&mut readable, c);
            }
        },
        None => {},
    }
    readable
}

/// What a server answer gives: an encrypted answer as it is; a plaintext
/// JSON answer (one that starts with a brace or bracket once trimmed) as
/// the readable error `plaintext_error` builds from the fields read from it.
pub fn ensure_encrypted_response_with_context(body: String, context: Option<&str>) -> (r: Result<
    String,
    String,
>)
    ensures
        ({
            let t = crate::text::trim_spec(body@);
            if t.len() > 0 && (t[0] == '{' || t[0] == '[') {
                r matches Err(m) && m@ == plaintext_error_spec(
                    t,
                    json_fields_spec(t, answer_keys()),
                    opt_str(context),
                )
            } else {
                r matches Ok(b) && b@ == body@
            }
        }),
{
    let trimmed = crate::text::trim_str(body.as_str());
    let tv = chars_of(trimmed.as_str());
    if tv.len() > 0 && (tv[0] == '{' || tv[0] == '[') {
        let keys: [&str; 4] = ["code", "desc", "description", "message"];
        let fields = json_fields(trimmed.as_str(), keys.as_slice());
        proof {
            assert(str_views(keys@) =~= answer_keys());
        }
        let m = plaintext_error(trimmed.as_str(), fields, context);
        return Err(m);
    }
    Ok(body)
}

pub fn ensure_encrypted_response(body: String) -> (r: Result<String, String>)
    ensures
        ({
            let t = crate::text::trim_spec(body@);
            if t.len() > 0 && (t[0] == '{' || t[0] == '[') {
                r matches Err(m) && m@ == plaintext_error_spec(
                    t,
                    json_fields_spec(t, answer_keys()),
                    None,
                )
            } else {
                r matches Ok(b) && b@ == body@
            }
        }),
{
    ensure_encrypted_response_with_context(body, None)
}

} // verus!

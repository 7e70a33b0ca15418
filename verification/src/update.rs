//! Checking the project's releases for a newer build of the panel.
use vstd::prelude::*;
use crate::outside::{opt_str_view, semver_newer, spec_semver_newer};
use crate::text::{
    ascii_lowercase, ascii_lowercase_str, chars_of, concat2, contains, contains_exec, str_eq, string_of,
    strip_leading, strip_leading_str, trim, trim_span, trim_str,
};

verus! {

/// One asset of a release: its `name` and `browser_download_url` where they are strings.
pub struct ReleaseAsset {
    pub name: Option<String>,
    pub browser_download_url: Option<String>,
}

/// The fields of a release that the update check reads, each present only where the
/// release listed it as a string (`assets` where it listed an array).
pub struct ReleaseInfo {
    pub tag_name: Option<String>,
    pub published_at: Option<String>,
    pub body: Option<String>,
    pub html_url: Option<String>,
    pub assets: Option<Vec<ReleaseAsset>>,
}

/// What the update check reports.
pub struct UpdateInfo {
    pub current_version: String,
    pub latest_version: String,
    pub published_at: Option<String>,
    pub release_notes: String,
    pub has_update: bool,
    pub release_url: String,
    pub download_url: String,
    pub asset_name: Option<String>,
    pub supported_arch: bool,
}

/// The operating system the panel runs on.
pub enum TargetOs {
    Windows,
    Linux,
    Other,
}

/// The processor architecture the panel runs on.
pub enum TargetArch {
    X86_64,
    Aarch64,
    Other,
}

/// The platform the panel was built for.
pub struct Platform {
    pub os: TargetOs,
    pub arch: TargetArch,
}

/// The project whose releases are checked.
pub fn current_release_repo() -> (r: &'static str)
    ensures
        r@ == "MengStar-L/TelSync"@,
{
    "MengStar-L/TelSync"
}

/// The asset name fragments that mark a build for the platform: Windows and Linux on x86-64
/// and Linux on ARM64 have some; every other platform has none.
pub open spec fn arch_keywords(p: Platform) -> Seq<Seq<char>> {
    match (p.os, p.arch) {
        (TargetOs::Windows, TargetArch::X86_64) => seq![
            "windows-amd64"@,
            "win-x64"@,
            "win64"@,
            "x86_64-pc-windows"@,
        ],
        (TargetOs::Linux, TargetArch::X86_64) => seq![
            "linux-amd64"@,
            "linux-x64"@,
            "x86_64-unknown-linux"@,
        ],
        (TargetOs::Linux, TargetArch::Aarch64) => seq![
            "linux-arm64"@,
            "linux-aarch64"@,
            "aarch64-unknown-linux"@,
        ],
        _ => Seq::empty(),
    }
}

pub open spec fn strs_view(v: Seq<&str>) -> Seq<Seq<char>> {
    v.map_values(|s: &str| s@)
}

pub fn current_arch_asset_keywords(platform: &Platform) -> (r: Vec<&'static str>)
    ensures
        strs_view(r@) == arch_keywords(*platform),
{
    let mut r: Vec<&'static str> = Vec::new();
    match (&platform.os, &platform.arch) {
        (TargetOs::Windows, TargetArch::X86_64) => {
            r.push("windows-amd64");
            r.push("win-x64");
            r.push("win64");
            r.push("x86_64-pc-windows");
        },
        (TargetOs::Linux, TargetArch::X86_64) => {
            r.push("linux-amd64");
            r.push("linux-x64");
            r.push("x86_64-unknown-linux");
        },
        (TargetOs::Linux, TargetArch::Aarch64) => {
            r.push("linux-arm64");
            r.push("linux-aarch64");
            r.push("aarch64-unknown-linux");
        },
        _ => {},
    }
    assert(strs_view(r@) =~= arch_keywords(*platform));
    r
}

/// The notes shown for a release: the body trimmed and cut to its first 1500 chars, or a
/// fixed note saying there are none when it is empty.
pub open spec fn release_notes(body: Seq<char>) -> Seq<char> {
    let t = trim(body);
    if t.len() == 0 {
        "暂无发布说明。"@
    } else if t.len() > 1500 {
        t.subrange(0, 1500)
    } else {
        t
    }
}

pub fn extract_release_notes(body: &str) -> (r: String)
    ensures
        r@ == release_notes(body@),
{
    let v = chars_of(body);
    let (a, b) = trim_span(&v);
    if a == b {
        return "暂无发布说明。".to_owned();
    }
    let end = if b - a > 1500 {
        a + 1500
    } else {
        b
    };
    let r = string_of(&v, a, end);
    assert(b - a > 1500 ==> v@.subrange(a as int, end as int) =~= v@.subrange(a as int, b as int).subrange(0, 1500));
    r
}

/// A version tag as the update check reads it: trimmed, leading `v`s dropped.
pub open spec fn clean_tag(tag: Seq<char>) -> Seq<char> {
    strip_leading(trim(tag), 'v')
}

pub fn clean_version_tag(tag: &str) -> (r: String)
    ensures
        r@ == clean_tag(tag@),
{
    let t = trim_str(tag);
    strip_leading_str(t.as_str(), 'v')
}

pub open spec fn opt_or(o: Option<String>, d: Seq<char>) -> Seq<char> {
    match o {
        Some(s) => s@,
        None => d,
    }
}

/// Whether an asset name, in ASCII lowercase, contains one of the keywords.
pub open spec fn name_matches(name: Seq<char>, keywords: Seq<Seq<char>>) -> bool {
    exists|k: int| 0 <= k < keywords.len() && contains(ascii_lowercase(name), keywords[k])
}

/// The index of the first asset whose name matches.
pub open spec fn first_matching(assets: Seq<ReleaseAsset>, keywords: Seq<Seq<char>>) -> Option<int>
    decreases assets.len(),
{
    if assets.len() == 0 {
        None
    } else if name_matches(opt_or(assets[0].name, Seq::empty()), keywords) {
        Some(0)
    } else {
        match first_matching(assets.drop_first(), keywords) {
            Some(i) => Some(i + 1),
            None => None,
        }
    }
}

pub open spec fn chosen_asset(r: ReleaseInfo, keywords: Seq<Seq<char>>) -> Option<ReleaseAsset> {
    match r.assets {
        Some(a) => match first_matching(a@, keywords) {
            Some(i) => Some(a@[i]),
            None => None,
        },
        None => None,
    }
}

/// Whether the release is newer: by semantic version when both versions parse, otherwise
/// by whether the version texts differ.
pub open spec fn newer(latest: Seq<char>, current: Seq<char>) -> bool {
    match spec_semver_newer(clean_tag(latest), clean_tag(current)) {
        Some(b) => b,
        None => latest != current,
    }
}

/// The update report for a release: its version (the tag without leading `v`s, or
/// `unknown`), date, notes and page; the first asset whose name names this platform, and its
/// download address, which falls back to the release page when there is none.
pub open spec fn update_info_ok(info: UpdateInfo, r: ReleaseInfo, current: Seq<char>, keywords: Seq<Seq<char>>) -> bool {
    let latest = strip_leading(opt_or(r.tag_name, "unknown"@), 'v');
    let release_url = opt_or(r.html_url, Seq::empty());
    let asset = chosen_asset(r, keywords);
    &&& info.current_version@ == current
    &&& info.latest_version@ == latest
    &&& opt_str_view(info.published_at) == opt_str_view(r.published_at)
    &&& info.release_notes@ == release_notes(opt_or(r.body, Seq::empty()))
    &&& info.has_update == newer(latest, current)
    &&& info.release_url@ == release_url
    &&& info.supported_arch == (keywords.len() > 0)
    &&& opt_str_view(info.asset_name) == match asset {
        Some(a) => opt_str_view(a.name),
        None => None,
    }
    &&& info.download_url@ == match asset {
        Some(a) => match a.browser_download_url {
            Some(u) => if u@.len() > 0 {
                u@
            } else {
                release_url
            },
            None => release_url,
        },
        None => release_url,
    }
}

fn opt_or_empty(o: &Option<String>) -> (r: String)
    ensures
        r@ == opt_or(*o, Seq::empty()),
{
    match o {
        Some(s) => s.clone(),
        None => String::new(),
    }
}

fn clone_opt(o: &Option<String>) -> (r: Option<String>)
    ensures
        opt_str_view(r) == opt_str_view(*o),
{
    match o {
        Some(s) => Some(s.clone()),
        None => None,
    }
}

fn name_matches_exec(name: &str, keywords: &Vec<&'static str>) -> (r: bool)
    ensures
        r == name_matches(name@, strs_view(keywords@)),
{
    let lower = ascii_lowercase_str(name);
    let lv = chars_of(lower.as_str());
    let mut k: usize = 0;
    while k < keywords.len()
        invariant
            k <= keywords@.len(),
            lv@ == ascii_lowercase(name@),
            forall|j: int| 0 <= j < k ==> !contains(ascii_lowercase(name@), #[trigger] strs_view(keywords@)[j]),
        decreases keywords@.len() - k,
    {
        let kv = chars_of(keywords[k]);
        if contains_exec(&lv, &kv) {
            assert(strs_view(keywords@)[k as int] == kv@);
            return true;
        }
        k = k + 1;
    }
    false
}

fn find_matching_asset(assets: &Vec<ReleaseAsset>, keywords: &Vec<&'static str>) -> (r: Option<usize>)
    ensures
        match r {
            Some(i) => first_matching(assets@, strs_view(keywords@)) == Some(i as int) && i < assets@.len(),
            None => first_matching(assets@, strs_view(keywords@)) is None,
        },
{
    let ghost kw = strs_view(keywords@);
    let mut i: usize = 0;
    assert(assets@.subrange(0, assets@.len() as int) =~= assets@);
    while i < assets.len()
        invariant
            i <= assets@.len(),
            kw == strs_view(keywords@),
            first_matching(assets@, kw) == match first_matching(assets@.subrange(i as int, assets@.len() as int), kw) {
                Some(j) => Some(j + i),
                None => None,
            },
        decreases assets@.len() - i,
    {
        let ghost rest = assets@.subrange(i as int, assets@.len() as int);
        assert(rest[0] == assets@[i as int]);
        assert(rest.drop_first() =~= assets@.subrange(i + 1, assets@.len() as int));
        let name = opt_or_empty(&assets[i].name);
        if name_matches_exec(name.as_str(), keywords) {
            return Some(i);
        }
        i = i + 1;
    }
    None
}

pub fn build_update_info_from_release(release: &ReleaseInfo, current_version: &str, platform: &Platform) -> (r: UpdateInfo)
    ensures
        update_info_ok(r, *release, current_version@, arch_keywords(*platform)),
{
    let keywords = current_arch_asset_keywords(platform);
    let tag = match &release.tag_name {
        Some(t) => t.clone(),
        None => "unknown".to_owned(),
    };
    let latest_version = strip_leading_str(tag.as_str(), 'v');
    let body = opt_or_empty(&release.body);
    let release_notes = extract_release_notes(body.as_str());
    let release_url = opt_or_empty(&release.html_url);
    let supported_arch = keywords.len() > 0;
    let mut asset_name: Option<String> = None;
    let mut download_url = release_url.clone();
    match &release.assets {
        Some(assets) => match find_matching_asset(assets, &keywords) {
            Some(i) => {
                asset_name = clone_opt(&assets[i].name);
                match &assets[i].browser_download_url {
                    Some(u) => if !u.as_str().is_empty() {
                        download_url = u.clone();
                    },
                    None => {},
                }
            },
            None => {},
        },
        None => {},
    }
    let current_clean = clean_version_tag(current_version);
    let latest_clean = clean_version_tag(latest_version.as_str());
    let has_update = match semver_newer(latest_clean.as_str(), current_clean.as_str()) {
        Some(b) => b,
        None => !str_eq(latest_version.as_str(), current_version),
    };
    UpdateInfo {
        current_version: current_version.to_owned(),
        latest_version,
        published_at: clone_opt(&release.published_at),
        release_notes,
        has_update,
        release_url,
        download_url,
        asset_name,
        supported_arch,
    }
}

/// Whether the update can be installed, and from where: a newer release with an asset for
/// this platform (whose address is not just the release page) and a non-blank address.
pub open spec fn update_source(info: UpdateInfo) -> Result<Seq<char>, Seq<char>> {
    if !info.has_update {
        Err("当前已是最新版本"@)
    } else if !info.supported_arch || info.asset_name is None || info.download_url@ == info.release_url@ {
        Err("未找到适用于当前架构的更新包"@)
    } else if trim(info.download_url@).len() == 0 {
        Err("更新包下载地址为空"@)
    } else {
        Ok(info.download_url@)
    }
}

pub fn update_download_url(info: &UpdateInfo) -> (r: Result<String, String>)
    ensures
        crate::config::res_view(r) == update_source(*info),
{
    if !info.has_update {
        return Err("当前已是最新版本".to_owned());
    }
    if !info.supported_arch || info.asset_name.is_none() || str_eq(info.download_url.as_str(), info.release_url.as_str()) {
        return Err("未找到适用于当前架构的更新包".to_owned());
    }
    let t = trim_str(info.download_url.as_str());
    if t.as_str().is_empty() {
        return Err("更新包下载地址为空".to_owned());
    }
    Ok(info.download_url.clone())
}

/// Self-update runs on Linux only, and needs an update source.
pub fn check_self_update(info: &UpdateInfo, platform: &Platform) -> (r: Result<String, String>)
    ensures
        crate::config::res_view(r) == match platform.os {
            TargetOs::Linux => update_source(*info),
            _ => Err("自动更新仅支持 Linux/OpenWrt 环境"@),
        },
{
    match platform.os {
        TargetOs::Linux => update_download_url(info),
        _ => Err("自动更新仅支持 Linux/OpenWrt 环境".to_owned()),
    }
}

/// The page the panel opens for an update: the download when there is an update, else the
/// release page.
pub fn update_open_target(info: &UpdateInfo) -> (r: String)
    ensures
        r@ == if info.has_update { info.download_url@ } else { info.release_url@ },
{
    if info.has_update {
        info.download_url.clone()
    } else {
        info.release_url.clone()
    }
}

/// One file operation of swapping in a downloaded update.
#[derive(Clone, Copy, Debug, PartialEq, Eq, Structural)]
pub enum ReplaceStep {
    /// Remove the old backup.
    RemoveBackup,
    /// Copy the running executable to the backup.
    BackupExecutable,
    /// Remove the running executable (Windows cannot rename over it).
    RemoveExecutable,
    /// Rename the downloaded file onto the executable.
    MoveUpdateIntoPlace,
}

/// The operations that swap in an update, in order: an error when the executable or the
/// downloaded file is missing; else the old backup goes first where there is one, then the
/// executable is backed up, on Windows removed, and the download moved onto it.
pub open spec fn replace_plan(exe_exists: bool, temp_exists: bool, backup_exists: bool, windows: bool) -> Result<Seq<ReplaceStep>, Seq<char>> {
    if !exe_exists {
        Err("当前程序文件不存在"@)
    } else if !temp_exists {
        Err("临时更新文件不存在"@)
    } else {
        Ok((if backup_exists { seq![ReplaceStep::RemoveBackup] } else { Seq::empty() }) + seq![ReplaceStep::BackupExecutable]
            + (if windows { seq![ReplaceStep::RemoveExecutable] } else { Seq::empty() }) + seq![ReplaceStep::MoveUpdateIntoPlace])
    }
}

pub fn replacement_steps(exe_exists: bool, temp_exists: bool, backup_exists: bool, windows: bool) -> (r: Result<Vec<ReplaceStep>, String>)
    ensures
        match replace_plan(exe_exists, temp_exists, backup_exists, windows) {
            Ok(steps) => r matches Ok(v) && v@ == steps,
            Err(e) => r matches Err(m) && m@ == e,
        },
{
    if !exe_exists {
        return Err("当前程序文件不存在".to_owned());
    }
    if !temp_exists {
        return Err("临时更新文件不存在".to_owned());
    }
    let mut v: Vec<ReplaceStep> = Vec::new();
    if backup_exists {
        v.push(ReplaceStep::RemoveBackup);
    }
    v.push(ReplaceStep::BackupExecutable);
    if windows {
        v.push(ReplaceStep::RemoveExecutable);
    }
    v.push(ReplaceStep::MoveUpdateIntoPlace);
    assert(v@ =~= replace_plan(exe_exists, temp_exists, backup_exists, windows)->Ok_0);
    Ok(v)
}

/// The error for a failed operation, with the system's words; a failed move is answered on
/// Windows by copying the backup back first.
pub open spec fn step_failure_prefix(step: ReplaceStep) -> Seq<char> {
    match step {
        ReplaceStep::RemoveBackup => "移除旧备份失败: "@,
        ReplaceStep::BackupExecutable => "备份当前程序失败: "@,
        ReplaceStep::RemoveExecutable => "准备替换当前程序失败: "@,
        ReplaceStep::MoveUpdateIntoPlace => "替换当前程序失败: "@,
    }
}

pub fn step_failure_message(step: ReplaceStep, err: &str) -> (r: String)
    ensures
        r@ == step_failure_prefix(step) + err@,
{
    let prefix = match step {
        ReplaceStep::RemoveBackup => "移除旧备份失败: ",
        ReplaceStep::BackupExecutable => "备份当前程序失败: ",
        ReplaceStep::RemoveExecutable => "准备替换当前程序失败: ",
        ReplaceStep::MoveUpdateIntoPlace => "替换当前程序失败: ",
    };
    concat2(prefix, err)
}


/// Whether text names an architecture by one of its usual tags: `amd64`, `x64`, `x86_64` or
/// `win64` for x86-64, `arm64` or `aarch64` for ARM64.
pub open spec fn names_arch(s: Seq<char>, arch: TargetArch) -> bool {
    match arch {
        TargetArch::X86_64 => contains(s, "amd64"@) || contains(s, "x64"@) || contains(s, "x86_64"@)
            || contains(s, "win64"@),
        TargetArch::Aarch64 => contains(s, "arm64"@) || contains(s, "aarch64"@),
        TargetArch::Other => false,
    }
}

proof fn lemma_keywords_name_arch(p: Platform)
    ensures
        forall|k: int| 0 <= k < arch_keywords(p).len() ==> names_arch(#[trigger] arch_keywords(p)[k], p.arch),
{
    reveal_strlit("windows-amd64");
    reveal_strlit("amd64");
    assert("windows-amd64"@.subrange(8, 13) =~= "amd64"@);
    assert(crate::text::occurs_at("windows-amd64"@, "amd64"@, 8));
    reveal_strlit("win-x64");
    reveal_strlit("x64");
    assert("win-x64"@.subrange(4, 7) =~= "x64"@);
    assert(crate::text::occurs_at("win-x64"@, "x64"@, 4));
    reveal_strlit("win64");
    reveal_strlit("win64");
    assert("win64"@.subrange(0, 5) =~= "win64"@);
    assert(crate::text::occurs_at("win64"@, "win64"@, 0));
    reveal_strlit("x86_64-pc-windows");
    reveal_strlit("x86_64");
    assert("x86_64-pc-windows"@.subrange(0, 6) =~= "x86_64"@);
    assert(crate::text::occurs_at("x86_64-pc-windows"@, "x86_64"@, 0));
    reveal_strlit("linux-amd64");
    reveal_strlit("amd64");
    assert("linux-amd64"@.subrange(6, 11) =~= "amd64"@);
    assert(crate::text::occurs_at("linux-amd64"@, "amd64"@, 6));
    reveal_strlit("linux-x64");
    reveal_strlit("x64");
    assert("linux-x64"@.subrange(6, 9) =~= "x64"@);
    assert(crate::text::occurs_at("linux-x64"@, "x64"@, 6));
    reveal_strlit("x86_64-unknown-linux");
    reveal_strlit("x86_64");
    assert("x86_64-unknown-linux"@.subrange(0, 6) =~= "x86_64"@);
    assert(crate::text::occurs_at("x86_64-unknown-linux"@, "x86_64"@, 0));
    reveal_strlit("linux-arm64");
    reveal_strlit("arm64");
    assert("linux-arm64"@.subrange(6, 11) =~= "arm64"@);
    assert(crate::text::occurs_at("linux-arm64"@, "arm64"@, 6));
    reveal_strlit("linux-aarch64");
    reveal_strlit("aarch64");
    assert("linux-aarch64"@.subrange(6, 13) =~= "aarch64"@);
    assert(crate::text::occurs_at("linux-aarch64"@, "aarch64"@, 6));
    reveal_strlit("aarch64-unknown-linux");
    reveal_strlit("aarch64");
    assert("aarch64-unknown-linux"@.subrange(0, 7) =~= "aarch64"@);
    assert(crate::text::occurs_at("aarch64-unknown-linux"@, "aarch64"@, 0));
}

proof fn lemma_contains_trans(a: Seq<char>, b: Seq<char>, c: Seq<char>)
    requires
        contains(a, b),
        contains(b, c),
    ensures
        contains(a, c),
{
    let i = choose|i: int| crate::text::occurs_at(a, b, i);
    let j = choose|j: int| crate::text::occurs_at(b, c, j);
    assert(a.subrange(i + j, i + j + c.len()) =~= b.subrange(j, j + c.len()));
    assert(crate::text::occurs_at(a, c, i + j));
}

proof fn lemma_first_matching_matches(assets: Seq<ReleaseAsset>, keywords: Seq<Seq<char>>)
    ensures
        first_matching(assets, keywords) matches Some(i) ==> 0 <= i < assets.len() && name_matches(
            opt_or(assets[i].name, Seq::empty()),
            keywords,
        ),
    decreases assets.len(),
{
    if assets.len() > 0 {
        lemma_first_matching_matches(assets.drop_first(), keywords);
        if let Some(i) = first_matching(assets.drop_first(), keywords) {
            assert(assets.drop_first()[i] == assets[i + 1]);
        }
    }
}

/// The build an update picks is one for the panel's own architecture: when the report names
/// an asset, its name (in lower case) holds a tag of the platform's architecture (such as
/// `amd64` on x86-64, `arm64` on ARM64), never only another architecture's.
pub proof fn chosen_build_matches_architecture(info: UpdateInfo, release: ReleaseInfo, current: Seq<char>, p: Platform)
    requires
        update_info_ok(info, release, current, arch_keywords(p)),
    ensures
        info.asset_name matches Some(n) ==> names_arch(ascii_lowercase(n@), p.arch),
{
    let kw = arch_keywords(p);
    if let Some(n) = info.asset_name {
        let a = chosen_asset(release, kw)->Some_0;
        let assets = release.assets->Some_0@;
        lemma_first_matching_matches(assets, kw);
        let i = first_matching(assets, kw)->Some_0;
        assert(a == assets[i]);
        assert(n@ == opt_or(a.name, Seq::empty()));
        let name = ascii_lowercase(n@);
        let k = choose|k: int| 0 <= k < kw.len() && contains(name, kw[k]);
        lemma_keywords_name_arch(p);
        assert(names_arch(kw[k], p.arch));
        let w = kw[k];
        if contains(w, "amd64"@) { lemma_contains_trans(name, w, "amd64"@); }
        if contains(w, "x64"@) { lemma_contains_trans(name, w, "x64"@); }
        if contains(w, "x86_64"@) { lemma_contains_trans(name, w, "x86_64"@); }
        if contains(w, "win64"@) { lemma_contains_trans(name, w, "win64"@); }
        if contains(w, "arm64"@) { lemma_contains_trans(name, w, "arm64"@); }
        if contains(w, "aarch64"@) { lemma_contains_trans(name, w, "aarch64"@); }
    }
}

} // verus!

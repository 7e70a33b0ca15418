//! The aria2 install wizard: which release to fetch for an architecture, which asset of it
//! to download, from which mirrors, when a download counts, what to take from the archive,
//! and the progress the wizard shows on the way.
use vstd::prelude::*;
use crate::config::AppConfig;
use crate::paths::{file_name_on, path_file_name_on};
use crate::text::{chars_of, concat2, concat3, contains, contains_exec, decimal, ends_with, ends_with_exec, u64_to_string};

verus! {

/// A request to install aria2 for an architecture (`win-x64`, `linux-x64`, `linux-arm64`).
pub struct InstallRequest {
    pub arch: String,
}

/// What the wizard shows: a status (`idle`, `downloading`, `extracting`, `done`, `failed`),
/// bytes downloaded of the total, and a message.
pub struct InstallProgress {
    pub status: String,
    pub downloaded: u64,
    pub total: u64,
    pub message: String,
}

/// What the first screen needs to know.
pub struct InitStatus {
    pub aria2_installed: bool,
    pub app_configured: bool,
}

pub fn init_status_of(aria2_installed: bool, config: &AppConfig) -> (r: InitStatus)
    ensures
        r.aria2_installed == aria2_installed,
        r.app_configured == config.spec_is_configured(),
{
    InitStatus { aria2_installed, app_configured: config.is_configured() }
}

/// The builds the wizard can install.
#[derive(Clone, Copy, Debug, PartialEq, Eq, Structural)]
pub enum InstallTarget {
    WinX64,
    LinuxX64,
    LinuxArm64,
}

pub open spec fn install_target_of(arch: Seq<char>) -> Option<InstallTarget> {
    if arch == "win-x64"@ {
        Some(InstallTarget::WinX64)
    } else if arch == "linux-x64"@ {
        Some(InstallTarget::LinuxX64)
    } else if arch == "linux-arm64"@ {
        Some(InstallTarget::LinuxArm64)
    } else {
        None
    }
}

/// The address of the latest-release description: aria2's own releases for Windows, the
/// static Linux builds of P3TERX/Aria2-Pro-Core otherwise.
pub open spec fn meta_url_of(t: InstallTarget) -> Seq<char> {
    match t {
        InstallTarget::WinX64 => "https://api.github.com/repos/aria2/aria2/releases/latest"@,
        _ => "https://api.github.com/repos/P3TERX/Aria2-Pro-Core/releases/latest"@,
    }
}

/// Where to look for a build: the target and its release description's address.
pub struct InstallSource {
    pub target: InstallTarget,
    pub meta_url: String,
}

pub fn install_source(arch: &str) -> (r: Result<InstallSource, String>)
    ensures
        match install_target_of(arch@) {
            Some(t) => r matches Ok(s) && s.target == t && s.meta_url@ == meta_url_of(t),
            None => r matches Err(e) && e@ == "不支持的架构"@,
        },
{
    let target = if crate::text::str_eq(arch, "win-x64") {
        InstallTarget::WinX64
    } else if crate::text::str_eq(arch, "linux-x64") {
        InstallTarget::LinuxX64
    } else if crate::text::str_eq(arch, "linux-arm64") {
        InstallTarget::LinuxArm64
    } else {
        return Err("不支持的架构".to_owned());
    };
    let meta_url = match target {
        InstallTarget::WinX64 => "https://api.github.com/repos/aria2/aria2/releases/latest".to_owned(),
        _ => "https://api.github.com/repos/P3TERX/Aria2-Pro-Core/releases/latest".to_owned(),
    };
    Ok(InstallSource { target, meta_url })
}

/// Whether a release asset is the build for the target: the 64-bit Windows zip, or the
/// Linux tarball for the machine.
pub open spec fn asset_matches(t: InstallTarget, name: Seq<char>) -> bool {
    match t {
        InstallTarget::WinX64 => contains(name, "win-64bit"@) && ends_with(name, ".zip"@),
        InstallTarget::LinuxX64 => ends_with(name, "linux-amd64.tar.gz"@),
        InstallTarget::LinuxArm64 => ends_with(name, "linux-arm64.tar.gz"@),
    }
}

pub fn asset_name_matches(t: InstallTarget, name: &str) -> (r: bool)
    ensures
        r == asset_matches(t, name@),
{
    let v = chars_of(name);
    match t {
        InstallTarget::WinX64 => contains_exec(&v, &chars_of("win-64bit")) && ends_with_exec(&v, &chars_of(".zip")),
        InstallTarget::LinuxX64 => ends_with_exec(&v, &chars_of("linux-amd64.tar.gz")),
        InstallTarget::LinuxArm64 => ends_with_exec(&v, &chars_of("linux-arm64.tar.gz")),
    }
}

/// One asset of a release, as the release description gives it (any field may be missing).
pub struct InstallAsset {
    pub name: Option<String>,
    pub browser_download_url: Option<String>,
    pub size: Option<u64>,
}

/// The asset to download: its address, its file name and its size in bytes.
pub struct ChosenAsset {
    pub download_url: String,
    pub file_name: String,
    pub total: u64,
}

pub open spec fn name_or_empty(a: InstallAsset) -> Seq<char> {
    match a.name {
        Some(n) => n@,
        None => Seq::empty(),
    }
}

/// The index of the first asset whose name (empty when missing) matches the target.
pub open spec fn first_matching_asset(t: InstallTarget, assets: Seq<InstallAsset>) -> Option<int>
    decreases assets.len(),
{
    if assets.len() == 0 {
        None
    } else if asset_matches(t, name_or_empty(assets[0])) {
        Some(0)
    } else {
        match first_matching_asset(t, assets.drop_first()) {
            Some(i) => Some(i + 1),
            None => None,
        }
    }
}

proof fn first_matching_asset_facts(t: InstallTarget, assets: Seq<InstallAsset>)
    ensures
        match first_matching_asset(t, assets) {
            Some(i) => 0 <= i < assets.len() && asset_matches(t, name_or_empty(assets[i]))
                && forall|j: int| 0 <= j < i ==> !asset_matches(t, #[trigger] name_or_empty(assets[j])),
            None => forall|j: int| 0 <= j < assets.len() ==> !asset_matches(t, #[trigger] name_or_empty(assets[j])),
        },
    decreases assets.len(),
{
    if assets.len() > 0 {
        first_matching_asset_facts(t, assets.drop_first());
        assert forall|j: int| 1 <= j < assets.len() implies name_or_empty(assets[j]) == name_or_empty(assets.drop_first()[j - 1]) by {}
    }
}

/// The pick from a release: an error when it lists no assets, or none of them is the
/// target's build; else the first matching one, with an empty address, the name `aria2`
/// and size 0 standing in for what it leaves out.
pub open spec fn pick_spec(t: InstallTarget, assets: Option<Seq<InstallAsset>>) -> Result<(Seq<char>, Seq<char>, u64), Seq<char>> {
    match assets {
        None => Err("未找到发布资产"@),
        Some(list) => match first_matching_asset(t, list) {
            None => Err("未找到匹配的安装包"@),
            Some(i) => {
                let a = list[i];
                Ok((
                    match a.browser_download_url { Some(u) => u@, None => Seq::empty() },
                    match a.name { Some(n) => n@, None => "aria2"@ },
                    match a.size { Some(s) => s, None => 0 },
                ))
            },
        },
    }
}

pub fn pick_install_asset(t: InstallTarget, assets: Option<&Vec<InstallAsset>>) -> (r: Result<ChosenAsset, String>)
    ensures
        match pick_spec(t, match assets { Some(v) => Some(v@), None => None }) {
            Ok(c) => r matches Ok(a) && a.download_url@ == c.0 && a.file_name@ == c.1 && a.total == c.2,
            Err(e) => r matches Err(m) && m@ == e,
        },
{
    let list = match assets {
        Some(v) => v,
        None => return Err("未找到发布资产".to_owned()),
    };
    proof {
        first_matching_asset_facts(t, list@);
    }
    let mut i: usize = 0;
    while i < list.len()
        invariant
            i <= list@.len(),
            match assets { Some(v) => v@ == list@, None => false },
            forall|j: int| 0 <= j < i ==> !asset_matches(t, #[trigger] name_or_empty(list@[j])),
            match first_matching_asset(t, list@) {
                Some(k) => i <= k < list@.len() && asset_matches(t, name_or_empty(list@[k]))
                    && forall|j: int| 0 <= j < k ==> !asset_matches(t, #[trigger] name_or_empty(list@[j])),
                None => forall|j: int| 0 <= j < list@.len() ==> !asset_matches(t, #[trigger] name_or_empty(list@[j])),
            },
        decreases list@.len() - i,
    {
        let a = &list[i];
        let hit = match &a.name {
            Some(n) => asset_name_matches(t, n.as_str()),
            None => {
                proof {
                    reveal_strlit("");
                    assert(""@ =~= Seq::<char>::empty());
                }
                asset_name_matches(t, "")
            },
        };
        assert(hit == asset_matches(t, name_or_empty(list@[i as int])));
        if hit {
            assert(name_or_empty(list@[i as int]) == name_or_empty(*a));
            let download_url = match &a.browser_download_url {
                Some(u) => u.clone(),
                None => String::new(),
            };
            let file_name = match &a.name {
                Some(n) => n.clone(),
                None => "aria2".to_owned(),
            };
            let total = match a.size {
                Some(s) => s,
                None => 0,
            };
            return Ok(ChosenAsset { download_url, file_name, total });
        }
        i = i + 1;
    }
    Err("未找到匹配的安装包".to_owned())
}

/// The addresses to try in turn: two download proxies in front of the asset's address, then
/// the address itself.
pub open spec fn mirrors_spec(url: Seq<char>) -> Seq<Seq<char>> {
    seq!["https://gh.llkk.cc/"@ + url, "https://github.moeyy.xyz/"@ + url, url]
}

pub fn mirror_urls(download_url: &str) -> (r: Vec<String>)
    ensures
        crate::config::strings_view(r@) == mirrors_spec(download_url@),
{
    let mut r: Vec<String> = Vec::new();
    r.push(concat2("https://gh.llkk.cc/", download_url));
    r.push(concat2("https://github.moeyy.xyz/", download_url));
    r.push(download_url.to_owned());
    assert(crate::config::strings_view(r@) =~= mirrors_spec(download_url@));
    r
}

/// A download from a mirror counts when it brought some bytes and, where the size is known,
/// at least half of it.
pub open spec fn accepted_spec(downloaded: u64, total: u64) -> bool {
    downloaded > 0 && (total == 0 || downloaded >= total / 2)
}

pub fn download_accepted(downloaded: u64, total: u64) -> (r: bool)
    ensures
        r == accepted_spec(downloaded, total),
{
    downloaded > 0 && (total == 0 || downloaded >= total / 2)
}

/// The bytes between two progress reports.
pub const PROGRESS_STEP: u64 = 262144;

/// Whether the chunk that brought the count to `downloaded` crossed a multiple of
/// `PROGRESS_STEP`, so that the shown count is brought up to date.
pub fn progress_due(downloaded: u64, chunk_len: u64) -> (r: bool)
    ensures
        r == (downloaded % PROGRESS_STEP < chunk_len),
{
    downloaded % PROGRESS_STEP < chunk_len
}

/// What follows an attempt on mirror `index` of `count`.
#[derive(Clone, Copy, Debug, PartialEq, Eq, Structural)]
pub enum MirrorMove {
    /// Keep what this mirror brought.
    Keep,
    /// Try the mirror with this index.
    Try(usize),
    /// Every mirror failed.
    GiveUp,
}

pub open spec fn mirror_next(index: usize, count: usize, accepted: bool) -> MirrorMove {
    if accepted {
        MirrorMove::Keep
    } else if index + 1 < count {
        MirrorMove::Try((index + 1) as usize)
    } else {
        MirrorMove::GiveUp
    }
}

pub fn after_mirror(index: usize, count: usize, accepted: bool) -> (r: MirrorMove)
    requires
        index < count,
    ensures
        r == mirror_next(index, count, accepted),
        r matches MirrorMove::Try(j) ==> index < j < count,
{
    if accepted {
        MirrorMove::Keep
    } else if index + 1 < count {
        MirrorMove::Try(index + 1)
    } else {
        MirrorMove::GiveUp
    }
}

/// The progress before anything was asked.
pub fn idle_progress() -> (r: InstallProgress)
    ensures
        r.status@ == "idle"@,
        r.downloaded == 0,
        r.total == 0,
        r.message@ == Seq::<char>::empty(),
{
    InstallProgress { status: "idle".to_owned(), downloaded: 0, total: 0, message: String::new() }
}

/// The progress while the release description is fetched.
pub fn fetching_progress() -> (r: InstallProgress)
    ensures
        r.status@ == "downloading"@,
        r.downloaded == 0,
        r.total == 0,
        r.message@ == "正在获取发布信息..."@,
{
    InstallProgress { status: "downloading".to_owned(), downloaded: 0, total: 0, message: "正在获取发布信息...".to_owned() }
}

/// A failed install: nothing downloaded, the known total, and why.
pub fn failed_progress(message: &str, total: u64) -> (r: InstallProgress)
    ensures
        r.status@ == "failed"@,
        r.downloaded == 0,
        r.total == total,
        r.message@ == message@,
{
    InstallProgress { status: "failed".to_owned(), downloaded: 0, total, message: message.to_owned() }
}

/// The message shown when fetching the release description failed with `err`.
pub fn meta_fetch_failed(err: &str) -> (r: String)
    ensures
        r@ == "获取发布信息失败: "@ + err@,
{
    concat2("获取发布信息失败: ", err)
}

/// The message returned when the release description could not be read, with `err`.
pub fn meta_parse_failed(err: &str) -> (r: String)
    ensures
        r@ == "解析发布信息失败: "@ + err@,
{
    concat2("解析发布信息失败: ", err)
}

/// Once the asset is chosen: its size is the total and the message names it.
pub fn start_download(p: &mut InstallProgress, file_name: &str, total: u64)
    ensures
        final(p).status@ == old(p).status@,
        final(p).downloaded == old(p).downloaded,
        final(p).total == total,
        final(p).message@ == "正在下载 "@ + file_name@ + " ..."@,
{
    p.total = total;
    p.message = concat3("正在下载 ", file_name, " ...");
}

/// Before each mirror (counted from 1 for the user): the count starts again at 0.
pub fn start_mirror(p: &mut InstallProgress, index: usize, file_name: &str)
    requires
        index < usize::MAX,
    ensures
        final(p).status@ == old(p).status@,
        final(p).downloaded == 0,
        final(p).total == old(p).total,
        final(p).message@ == "正在从源 "@ + decimal((index + 1) as nat) + " 下载 "@ + file_name@ + " ..."@,
{
    p.downloaded = 0;
    let n = u64_to_string((index + 1) as u64);
    let head = concat3("正在从源 ", n.as_str(), " 下载 ");
    p.message = concat3(head.as_str(), file_name, " ...");
}

/// While extracting.
pub fn start_extracting(p: &mut InstallProgress, file_name: &str)
    ensures
        final(p).status@ == "extracting"@,
        final(p).downloaded == old(p).downloaded,
        final(p).total == old(p).total,
        final(p).message@ == "正在解压 "@ + file_name@ + " ..."@,
{
    p.status = "extracting".to_owned();
    p.message = concat3("正在解压 ", file_name, " ...");
}

/// A finished install of `size` bytes.
pub fn done_progress(size: u64) -> (r: InstallProgress)
    ensures
        r.status@ == "done"@,
        r.downloaded == size,
        r.total == size,
        r.message@ == "Aria2 安装成功！"@,
{
    InstallProgress { status: "done".to_owned(), downloaded: size, total: size, message: "Aria2 安装成功！".to_owned() }
}

/// The kind of archive a target's build comes in.
#[derive(Clone, Copy, Debug, PartialEq, Eq, Structural)]
pub enum ArchiveKind {
    Zip,
    TarGz,
}

pub open spec fn archive_kind_of(t: InstallTarget) -> ArchiveKind {
    match t {
        InstallTarget::WinX64 => ArchiveKind::Zip,
        _ => ArchiveKind::TarGz,
    }
}

pub fn archive_kind(t: InstallTarget) -> (r: ArchiveKind)
    ensures
        r == archive_kind_of(t),
{
    match t {
        InstallTarget::WinX64 => ArchiveKind::Zip,
        _ => ArchiveKind::TarGz,
    }
}

/// The names an install works with: where the archive is saved, the binary it extracts,
/// and the error when the archive holds none.
pub open spec fn archive_names(k: ArchiveKind) -> (Seq<char>, Seq<char>, Seq<char>) {
    match k {
        ArchiveKind::Zip => ("aria2.zip"@, "aria2c.exe"@, "压缩包中未找到 aria2c.exe"@),
        ArchiveKind::TarGz => ("aria2.tar.gz"@, "aria2c"@, "压缩包中未找到 aria2c"@),
    }
}

pub fn archive_file_names(k: ArchiveKind) -> (r: (&'static str, &'static str, &'static str))
    ensures
        (r.0@, r.1@, r.2@) == archive_names(k),
{
    match k {
        ArchiveKind::Zip => ("aria2.zip", "aria2c.exe", "压缩包中未找到 aria2c.exe"),
        ArchiveKind::TarGz => ("aria2.tar.gz", "aria2c", "压缩包中未找到 aria2c"),
    }
}

/// Whether an archive entry is the aria2 binary: in a zip, a name ending in `aria2c.exe`; in
/// a tarball, a path whose last component is `aria2c`.
pub open spec fn entry_is_binary(k: ArchiveKind, entry: Seq<char>, windows: bool) -> bool {
    match k {
        ArchiveKind::Zip => ends_with(entry, "aria2c.exe"@),
        ArchiveKind::TarGz => file_name_on(windows, entry) == Some("aria2c"@),
    }
}

pub fn archive_entry_is_binary(k: ArchiveKind, entry: &str, windows: bool) -> (r: bool)
    ensures
        r == entry_is_binary(k, entry@, windows),
{
    match k {
        ArchiveKind::Zip => ends_with_exec(&chars_of(entry), &chars_of("aria2c.exe")),
        ArchiveKind::TarGz => match path_file_name_on(windows, entry) {
            Some(n) => crate::text::str_eq(n.as_str(), "aria2c"),
            None => false,
        },
    }
}

} // verus!

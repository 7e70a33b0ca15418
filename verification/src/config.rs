use vstd::prelude::*;
use crate::outside::{parse_url, spec_url_parse, UrlPartsView};
use crate::text::{
    bool_text, bool_to_string, concat2, decimal, str_eq, strip_trailing, strip_trailing_str, trim,
    trim_str, u64_to_string,
};

verus! {

/// The panel's persistent settings.
pub struct AppConfig {
    /// TelDrive server address, for example `https://teldrive.example.com`.
    pub teldrive_url: String,
    /// The `access_token` cookie value.
    pub access_token: String,
    /// The local folder that files are synced into.
    pub local_path: String,
    /// How many downloads aria2 runs at once.
    pub max_concurrent_downloads: usize,
    /// aria2 `all-proxy`.
    pub proxy_url: String,
    /// aria2 `all-proxy-user`.
    pub proxy_user: String,
    /// aria2 `all-proxy-passwd`.
    pub proxy_passwd: String,
    /// Whether aria2's RPC listens on all interfaces.
    pub rpc_allow_remote: bool,
    /// aria2 `rpc-secret`.
    pub rpc_secret: String,
}

impl AppConfig {
    /// The panel is usable once the server, the token and the local folder are set.
    pub open spec fn spec_is_configured(&self) -> bool {
        self.teldrive_url@.len() > 0 && self.access_token@.len() > 0 && self.local_path@.len() > 0
    }

    pub fn is_configured(&self) -> (r: bool)
        ensures
            r == self.spec_is_configured(),
    {
        !self.teldrive_url.as_str().is_empty() && !self.access_token.as_str().is_empty()
            && !self.local_path.as_str().is_empty()
    }
}


impl Default for AppConfig {
    /// Nothing set, two concurrent downloads, RPC local only.
    fn default() -> (r: Self)
        ensures
            r.teldrive_url@.len() == 0,
            r.access_token@.len() == 0,
            r.local_path@.len() == 0,
            r.max_concurrent_downloads == 2,
            r.proxy_url@.len() == 0,
            r.proxy_user@.len() == 0,
            r.proxy_passwd@.len() == 0,
            !r.rpc_allow_remote,
            r.rpc_secret@.len() == 0,
    {
        AppConfig {
            teldrive_url: String::new(),
            access_token: String::new(),
            local_path: String::new(),
            max_concurrent_downloads: 2,
            proxy_url: String::new(),
            proxy_user: String::new(),
            proxy_passwd: String::new(),
            rpc_allow_remote: false,
            rpc_secret: String::new(),
        }
    }
}

/// A partial change of the settings: only the fields that are present change.
pub struct ConfigUpdate {
    pub teldrive_url: Option<String>,
    pub access_token: Option<String>,
    pub local_path: Option<String>,
    pub max_concurrent_downloads: Option<usize>,
    pub proxy_url: Option<String>,
    pub proxy_user: Option<String>,
    pub proxy_passwd: Option<String>,
    pub rpc_allow_remote: Option<bool>,
    pub rpc_secret: Option<String>,
}

pub open spec fn is_proxy_scheme(s: Seq<char>) -> bool {
    s == "http"@ || s == "https"@ || s == "socks5"@ || s == "socks5h"@
}

/// What the proxy check makes of a parsed address.
pub open spec fn proxy_check(p: Seq<char>, u: UrlPartsView) -> Result<Seq<char>, Seq<char>> {
    if !is_proxy_scheme(u.scheme) {
        Err("代理地址协议仅支持 http、https、socks5、socks5h"@)
    } else if u.host is None {
        Err("代理地址缺少主机名"@)
    } else if u.path.len() != 0 && u.path != "/"@ {
        Err("代理地址不应包含路径，请只填写协议、主机和端口"@)
    } else if u.query is Some || u.fragment is Some {
        Err("代理地址不应包含查询参数或片段"@)
    } else {
        Ok(p)
    }
}

/// The proxy address as it is stored: trimmed; empty means no proxy; otherwise it must parse
/// as a URL with an http, https, socks5 or socks5h scheme, a host, no path beyond `/`, and no
/// query or fragment.
pub open spec fn normalize_proxy(raw: Seq<char>) -> Result<Seq<char>, Seq<char>> {
    let p = trim(raw);
    if p.len() == 0 {
        Ok(Seq::empty())
    } else {
        match spec_url_parse(p) {
            None => Err("代理地址格式不正确，请使用 http(s)://host:port 或 socks5://host:port"@),
            Some(u) => proxy_check(p, u),
        }
    }
}

pub open spec fn res_view(r: Result<String, String>) -> Result<Seq<char>, Seq<char>> {
    match r {
        Ok(s) => Ok(s@),
        Err(e) => Err(e@),
    }
}

pub fn normalize_proxy_url(raw: &str) -> (r: Result<String, String>)
    ensures
        res_view(r) == normalize_proxy(raw@),
{
    let proxy_url = trim_str(raw);
    if proxy_url.as_str().is_empty() {
        return Ok(String::new());
    }
    let parsed = match parse_url(proxy_url.as_str()) {
        Some(u) => u,
        None => {
            return Err(
                "代理地址格式不正确，请使用 http(s)://host:port 或 socks5://host:port".to_owned(),
            )
        },
    };
    let scheme = parsed.scheme.as_str();
    if !(str_eq(scheme, "http") || str_eq(scheme, "https") || str_eq(scheme, "socks5") || str_eq(
        scheme,
        "socks5h",
    )) {
        return Err("代理地址协议仅支持 http、https、socks5、socks5h".to_owned());
    }
    if parsed.host.is_none() {
        return Err("代理地址缺少主机名".to_owned());
    }
    if !parsed.path.as_str().is_empty() && !str_eq(parsed.path.as_str(), "/") {
        return Err("代理地址不应包含路径，请只填写协议、主机和端口".to_owned());
    }
    if parsed.query.is_some() || parsed.fragment.is_some() {
        return Err("代理地址不应包含查询参数或片段".to_owned());
    }
    Ok(proxy_url)
}

/// The stored TelDrive address: without trailing `/`.
pub open spec fn norm_url(u: Seq<char>) -> Seq<char> {
    strip_trailing(u, '/')
}

/// The stored local folder: trimmed, then trailing `\` removed, then trailing `/` removed.
pub open spec fn norm_local_path(p: Seq<char>) -> Seq<char> {
    strip_trailing(strip_trailing(trim(p), '\\'), '/')
}

/// `max(1, min(m, 5))`.
pub open spec fn clamp_downloads(m: usize) -> usize {
    if m < 1 {
        1
    } else if m > 5 {
        5
    } else {
        m
    }
}

pub open spec fn upd<T>(o: Option<T>, cur: T, f: spec_fn(T) -> T) -> T {
    match o {
        Some(v) => f(v),
        None => cur,
    }
}

pub open spec fn upd_str(o: Option<String>, cur: Seq<char>, f: spec_fn(Seq<char>) -> Seq<char>) -> Seq<char> {
    match o {
        Some(v) => f(v@),
        None => cur,
    }
}

/// The proxy field after an update, or the error that stops it.
pub open spec fn proxy_update(o: Option<String>, cur: Seq<char>) -> Result<Seq<char>, Seq<char>> {
    match o {
        Some(v) => normalize_proxy(v@),
        None => Ok(cur),
    }
}

/// An update applied to the settings in place, field by field in declaration order: the
/// address without trailing `/`, the token trimmed, the local folder as [`norm_local_path`],
/// the download count clamped to 1..=5, the proxy as [`normalize_proxy`], the proxy user,
/// password and RPC secret trimmed. An invalid proxy stops the update with its error: the
/// fields before it have changed, the ones after it have not.
pub fn apply_config_update(config: &mut AppConfig, update: ConfigUpdate) -> (r: Result<(), String>)
    ensures
        final(config).teldrive_url@ == upd_str(update.teldrive_url, old(config).teldrive_url@, |u| norm_url(u)),
        final(config).access_token@ == upd_str(update.access_token, old(config).access_token@, |u| trim(u)),
        final(config).local_path@ == upd_str(update.local_path, old(config).local_path@, |u| norm_local_path(u)),
        final(config).max_concurrent_downloads == upd(update.max_concurrent_downloads, old(config).max_concurrent_downloads, |m| clamp_downloads(m)),
        update.max_concurrent_downloads is Some || 1 <= old(config).max_concurrent_downloads <= 5 ==> 1
            <= final(config).max_concurrent_downloads <= 5,
        match proxy_update(update.proxy_url, old(config).proxy_url@) {
            Err(e) => {
                &&& r matches Err(re) && re@ == e
                &&& final(config).proxy_url@ == old(config).proxy_url@
                &&& final(config).proxy_user@ == old(config).proxy_user@
                &&& final(config).proxy_passwd@ == old(config).proxy_passwd@
                &&& final(config).rpc_allow_remote == old(config).rpc_allow_remote
                &&& final(config).rpc_secret@ == old(config).rpc_secret@
            },
            Ok(p) => {
                &&& r is Ok
                &&& final(config).proxy_url@ == p
                &&& final(config).proxy_user@ == upd_str(update.proxy_user, old(config).proxy_user@, |u| trim(u))
                &&& final(config).proxy_passwd@ == upd_str(update.proxy_passwd, old(config).proxy_passwd@, |u| trim(u))
                &&& final(config).rpc_allow_remote == upd(update.rpc_allow_remote, old(config).rpc_allow_remote, |b| b)
                &&& final(config).rpc_secret@ == upd_str(update.rpc_secret, old(config).rpc_secret@, |u| trim(u))
            },
        },
{
    if let Some(url) = update.teldrive_url {
        config.teldrive_url = strip_trailing_str(url.as_str(), '/');
    }
    if let Some(token) = update.access_token {
        config.access_token = trim_str(token.as_str());
    }
    if let Some(path) = update.local_path {
        let t = trim_str(path.as_str());
        let t = strip_trailing_str(t.as_str(), '\\');
        config.local_path = strip_trailing_str(t.as_str(), '/');
    }
    if let Some(max) = update.max_concurrent_downloads {
        config.max_concurrent_downloads = if max < 1 {
            1
        } else if max > 5 {
            5
        } else {
            max
        };
    }
    if let Some(proxy_url) = update.proxy_url {
        match normalize_proxy_url(proxy_url.as_str()) {
            Ok(p) => {
                config.proxy_url = p;
            },
            Err(e) => {
                return Err(e);
            },
        }
    }
    if let Some(proxy_user) = update.proxy_user {
        config.proxy_user = trim_str(proxy_user.as_str());
    }
    if let Some(proxy_passwd) = update.proxy_passwd {
        config.proxy_passwd = trim_str(proxy_passwd.as_str());
    }
    if let Some(rpc_allow_remote) = update.rpc_allow_remote {
        config.rpc_allow_remote = rpc_allow_remote;
    }
    if let Some(rpc_secret) = update.rpc_secret {
        config.rpc_secret = trim_str(rpc_secret.as_str());
    }
    Ok(())
}

/// aria2 must be restarted when the RPC exposure or the RPC secret changed.
pub fn restart_required(previous: &AppConfig, current: &AppConfig) -> (r: bool)
    ensures
        r == (previous.rpc_allow_remote != current.rpc_allow_remote || previous.rpc_secret@
            != current.rpc_secret@),
{
    previous.rpc_allow_remote != current.rpc_allow_remote || !str_eq(
        previous.rpc_secret.as_str(),
        current.rpc_secret.as_str(),
    )
}

/// The message that answers a saved configuration: `base`, with a warning appended when the
/// RPC is open to other devices without a secret.
pub open spec fn save_message(base: Seq<char>, config: AppConfig) -> Seq<char> {
    if config.rpc_allow_remote && config.rpc_secret@.len() == 0 {
        base + "（已允许外部访问，建议设置 RPC 密码）"@
    } else {
        base
    }
}

pub fn build_save_message(base: &str, config: &AppConfig) -> (r: String)
    ensures
        r@ == save_message(base@, *config),
{
    if config.rpc_allow_remote && config.rpc_secret.as_str().is_empty() {
        concat2(base, "（已允许外部访问，建议设置 RPC 密码）")
    } else {
        base.to_owned()
    }
}

/// The aria2 options that can change at run time, as `(name, value)` pairs.
pub open spec fn global_options(c: AppConfig) -> Seq<(Seq<char>, Seq<char>)> {
    seq![
        ("max-concurrent-downloads"@, decimal(c.max_concurrent_downloads as nat)),
        ("all-proxy"@, c.proxy_url@),
        ("all-proxy-user"@, c.proxy_user@),
        ("all-proxy-passwd"@, c.proxy_passwd@),
    ]
}

pub open spec fn string_pairs_view(v: Seq<(String, String)>) -> Seq<(Seq<char>, Seq<char>)> {
    v.map_values(|p: (String, String)| (p.0@, p.1@))
}

pub fn build_aria2_global_options(config: &AppConfig) -> (r: Vec<(String, String)>)
    ensures
        string_pairs_view(r@) == global_options(*config),
{
    let mut r: Vec<(String, String)> = Vec::new();
    r.push(
        (
            "max-concurrent-downloads".to_owned(),
            u64_to_string(config.max_concurrent_downloads as u64),
        ),
    );
    r.push(("all-proxy".to_owned(), config.proxy_url.clone()));
    r.push(("all-proxy-user".to_owned(), config.proxy_user.clone()));
    r.push(("all-proxy-passwd".to_owned(), config.proxy_passwd.clone()));
    assert(string_pairs_view(r@) =~= global_options(*config));
    r
}

/// The settings aria2 is started with.
pub struct SpawnAria2Options {
    pub local_dir: String,
    pub port: u16,
    pub max_concurrent: usize,
    pub proxy_url: String,
    pub proxy_user: String,
    pub proxy_passwd: String,
    pub rpc_allow_remote: bool,
    pub rpc_secret: String,
}

/// The command line that starts aria2: RPC on the given port, never renaming or overwriting
/// files, downloads into `local_dir`; the secret and the proxy (with its user and password)
/// only where they are set.
pub open spec fn aria2_args(o: SpawnAria2Options) -> Seq<Seq<char>> {
    seq![
        "--enable-rpc=true"@,
        "--rpc-listen-port="@ + decimal(o.port as nat),
        "--rpc-listen-all="@ + bool_text(o.rpc_allow_remote),
        "--rpc-allow-origin-all=true"@,
        "--max-concurrent-downloads="@ + decimal(o.max_concurrent as nat),
        "--continue=true"@,
        "--auto-file-renaming=false"@,
        "--allow-overwrite=false"@,
        "--dir="@ + o.local_dir@,
    ] + (if o.rpc_secret@.len() > 0 {
        seq!["--rpc-secret="@ + o.rpc_secret@]
    } else {
        Seq::empty()
    }) + (if o.proxy_url@.len() > 0 {
        seq!["--all-proxy="@ + o.proxy_url@] + (if o.proxy_user@.len() > 0 {
            seq!["--all-proxy-user="@ + o.proxy_user@]
        } else {
            Seq::empty()
        }) + (if o.proxy_passwd@.len() > 0 {
            seq!["--all-proxy-passwd="@ + o.proxy_passwd@]
        } else {
            Seq::empty()
        })
    } else {
        Seq::empty()
    })
}

pub open spec fn strings_view(v: Seq<String>) -> Seq<Seq<char>> {
    v.map_values(|s: String| s@)
}

pub fn aria2_spawn_args(o: &SpawnAria2Options) -> (r: Vec<String>)
    ensures
        strings_view(r@) == aria2_args(*o),
{
    let mut r: Vec<String> = Vec::new();
    r.push("--enable-rpc=true".to_owned());
    r.push(concat2("--rpc-listen-port=", u64_to_string(o.port as u64).as_str()));
    r.push(concat2("--rpc-listen-all=", bool_to_string(o.rpc_allow_remote).as_str()));
    r.push("--rpc-allow-origin-all=true".to_owned());
    r.push(concat2("--max-concurrent-downloads=", u64_to_string(o.max_concurrent as u64).as_str()));
    r.push("--continue=true".to_owned());
    r.push("--auto-file-renaming=false".to_owned());
    r.push("--allow-overwrite=false".to_owned());
    r.push(concat2("--dir=", o.local_dir.as_str()));
    let ghost base = strings_view(r@);
    if !o.rpc_secret.as_str().is_empty() {
        r.push(concat2("--rpc-secret=", o.rpc_secret.as_str()));
    }
    let ghost with_secret = strings_view(r@);
    if !o.proxy_url.as_str().is_empty() {
        r.push(concat2("--all-proxy=", o.proxy_url.as_str()));
        if !o.proxy_user.as_str().is_empty() {
            r.push(concat2("--all-proxy-user=", o.proxy_user.as_str()));
        }
        if !o.proxy_passwd.as_str().is_empty() {
            r.push(concat2("--all-proxy-passwd=", o.proxy_passwd.as_str()));
        }
    }
    assert(strings_view(r@) =~= aria2_args(*o));
    r
}

/// The RPC port the panel runs aria2 on.
pub const ARIA2_RPC_PORT: u16 = 16800;

/// The start settings that follow from the panel's settings: the local folder (`.` when none
/// is set), the panel's RPC port, and the download, proxy and RPC settings.
pub fn spawn_options_from_config(config: &AppConfig) -> (r: SpawnAria2Options)
    ensures
        r.local_dir@ == (if config.local_path@.len() == 0 { "."@ } else { config.local_path@ }),
        r.port == ARIA2_RPC_PORT,
        r.max_concurrent == config.max_concurrent_downloads,
        r.proxy_url@ == config.proxy_url@,
        r.proxy_user@ == config.proxy_user@,
        r.proxy_passwd@ == config.proxy_passwd@,
        r.rpc_allow_remote == config.rpc_allow_remote,
        r.rpc_secret@ == config.rpc_secret@,
{
    let local_dir = if config.local_path.as_str().is_empty() {
        ".".to_owned()
    } else {
        config.local_path.clone()
    };
    SpawnAria2Options {
        local_dir,
        port: ARIA2_RPC_PORT,
        max_concurrent: config.max_concurrent_downloads,
        proxy_url: config.proxy_url.clone(),
        proxy_user: config.proxy_user.clone(),
        proxy_passwd: config.proxy_passwd.clone(),
        rpc_allow_remote: config.rpc_allow_remote,
        rpc_secret: config.rpc_secret.clone(),
    }
}

/// Refreshing the trees or testing the connection needs the panel configured.
pub fn require_configured(config: &AppConfig) -> (r: Result<(), String>)
    ensures
        config.spec_is_configured() <==> r is Ok,
        r matches Err(e) ==> e@ == "请先完成配置"@,
{
    if config.is_configured() {
        Ok(())
    } else {
        Err("请先完成配置".to_owned())
    }
}


/// The start settings at launch: those of [`spawn_options_from_config`], except that the
/// local folder is passed as stored, even when it is empty.
pub fn startup_spawn_options(config: &AppConfig) -> (r: SpawnAria2Options)
    ensures
        r.local_dir@ == config.local_path@,
        r.port == ARIA2_RPC_PORT,
        r.max_concurrent == config.max_concurrent_downloads,
        r.proxy_url@ == config.proxy_url@,
        r.proxy_user@ == config.proxy_user@,
        r.proxy_passwd@ == config.proxy_passwd@,
        r.rpc_allow_remote == config.rpc_allow_remote,
        r.rpc_secret@ == config.rpc_secret@,
{
    let mut o = spawn_options_from_config(config);
    o.local_dir = config.local_path.clone();
    o
}

} // verus!

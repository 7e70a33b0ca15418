use telsync::aria2_ctl::{
    aria2_binary_path, aria2_file_name, check_aria2_exists, download_cookie_header, download_options,
    rpc_endpoint, rpc_token_param, should_kill_aria2_process, BinaryProbe,
};
use telsync::config::{
    apply_config_update, aria2_spawn_args, build_aria2_global_options, build_save_message,
    normalize_proxy_url, require_configured, restart_required, spawn_options_from_config, AppConfig,
    ConfigUpdate,
};
use telsync::enqueue::{download_dir_for, enqueue_outcome, plan_enqueue};
use telsync::install::{
    after_mirror, archive_entry_is_binary, archive_file_names, archive_kind, download_accepted,
    install_source, mirror_urls, pick_install_asset, progress_due, start_mirror, failed_progress,
    ArchiveKind, InstallAsset, InstallTarget, MirrorMove,
};
use telsync::local_scan::{scan_local_dir, LocalEntry, LocalListing};
use telsync::paths::{plan_delete, same_file_path, update_artifact_paths, DeletePlan};
use telsync::tasks::{
    build_download_url, plan_remove, plan_retry_checked, summarize_task_checked, task_remote_path,
    Aria2File, Aria2Task,
};
use telsync::teldrive::{build_remote_tree, list_page_url_exec, next_page_cursor, RemoteEntry};
use telsync::update::{
    extract_release_notes, replacement_steps, update_download_url, ReplaceStep, UpdateInfo,
};

fn empty_update() -> ConfigUpdate {
    ConfigUpdate {
        teldrive_url: None,
        access_token: None,
        local_path: None,
        max_concurrent_downloads: None,
        proxy_url: None,
        proxy_user: None,
        proxy_passwd: None,
        rpc_allow_remote: None,
        rpc_secret: None,
    }
}

fn base_config() -> AppConfig {
    AppConfig {
        teldrive_url: "https://td.example.com".to_string(),
        access_token: "tok".to_string(),
        local_path: "/data".to_string(),
        max_concurrent_downloads: 2,
        proxy_url: String::new(),
        proxy_user: String::new(),
        proxy_passwd: String::new(),
        rpc_allow_remote: false,
        rpc_secret: String::new(),
    }
}

fn task(status: &str, dir: Option<&str>, path: &str, uri: Option<&str>) -> Aria2Task {
    Aria2Task {
        gid: Some("g1".to_string()),
        status: Some(status.to_string()),
        total_length: Some("100".to_string()),
        completed_length: Some("40".to_string()),
        download_speed: Some("1.5".to_string()),
        dir: dir.map(|d| d.to_string()),
        files: Some(vec![Aria2File {
            path: Some(path.to_string()),
            uris: uri.map(|u| vec![Some(u.to_string())]),
        }]),
    }
}

#[test]
fn config_update_normalises_each_field() {
    let mut c = AppConfig::default();
    assert_eq!(c.max_concurrent_downloads, 2);
    let mut u = empty_update();
    u.teldrive_url = Some("https://td.example.com//".to_string());
    u.access_token = Some("  tok \n".to_string());
    u.local_path = Some("  D:\\sync\\ ".to_string());
    u.max_concurrent_downloads = Some(9);
    u.proxy_url = Some(" http://127.0.0.1:7890/ ".to_string());
    u.rpc_secret = Some(" s ".to_string());
    assert!(apply_config_update(&mut c, u).is_ok());
    assert_eq!(c.teldrive_url, "https://td.example.com");
    assert_eq!(c.access_token, "tok");
    assert_eq!(c.local_path, "D:\\sync");
    assert_eq!(c.max_concurrent_downloads, 5);
    assert_eq!(c.proxy_url, "http://127.0.0.1:7890/");
    assert_eq!(c.rpc_secret, "s");

    let mut u = empty_update();
    u.max_concurrent_downloads = Some(0);
    assert!(apply_config_update(&mut c, u).is_ok());
    assert_eq!(c.max_concurrent_downloads, 1);
}

#[test]
fn an_invalid_proxy_stops_the_update_where_it_stands() {
    let mut c = base_config();
    let mut u = empty_update();
    u.access_token = Some(" new ".to_string());
    u.proxy_url = Some("ftp://host:21".to_string());
    u.rpc_secret = Some("secret".to_string());
    let err = apply_config_update(&mut c, u).err().unwrap();
    assert_eq!(err, "代理地址协议仅支持 http、https、socks5、socks5h");
    assert_eq!(c.access_token, "new");
    assert_eq!(c.rpc_secret, "");
}

#[test]
fn proxy_errors_each_have_their_message() {
    assert_eq!(normalize_proxy_url("   ").ok().unwrap(), "");
    assert_eq!(normalize_proxy_url("socks5://h:1080").ok().unwrap(), "socks5://h:1080");
    assert_eq!(
        normalize_proxy_url("not a url").err().unwrap(),
        "代理地址格式不正确，请使用 http(s)://host:port 或 socks5://host:port"
    );
    assert_eq!(
        normalize_proxy_url("http://h:1/path").err().unwrap(),
        "代理地址不应包含路径，请只填写协议、主机和端口"
    );
    assert_eq!(normalize_proxy_url("http://h:1/?q=1").err().unwrap(), "代理地址不应包含查询参数或片段");
    assert_eq!(normalize_proxy_url("socks5:x").err().unwrap(), "代理地址缺少主机名");
}

#[test]
fn restart_and_save_messages() {
    let a = base_config();
    let mut b = base_config();
    assert!(!restart_required(&a, &b));
    b.rpc_allow_remote = true;
    assert!(restart_required(&a, &b));
    assert_eq!(build_save_message("ok", &b), "ok（已允许外部访问，建议设置 RPC 密码）");
    b.rpc_secret = "x".to_string();
    assert_eq!(build_save_message("ok", &b), "ok");
    assert!(require_configured(&a).is_ok());
    assert_eq!(require_configured(&AppConfig::default()).err().unwrap(), "请先完成配置");
}

#[test]
fn aria2_command_line_and_options() {
    let mut c = base_config();
    c.proxy_url = "http://p:1".to_string();
    c.proxy_passwd = "pw".to_string();
    c.rpc_secret = "sec".to_string();
    let o = spawn_options_from_config(&c);
    assert_eq!(o.port, 16800);
    assert_eq!(
        aria2_spawn_args(&o),
        vec![
            "--enable-rpc=true",
            "--rpc-listen-port=16800",
            "--rpc-listen-all=false",
            "--rpc-allow-origin-all=true",
            "--max-concurrent-downloads=2",
            "--continue=true",
            "--auto-file-renaming=false",
            "--allow-overwrite=false",
            "--dir=/data",
            "--rpc-secret=sec",
            "--all-proxy=http://p:1",
            "--all-proxy-passwd=pw",
        ]
    );
    let mut d = base_config();
    d.local_path = String::new();
    assert_eq!(spawn_options_from_config(&d).local_dir, ".");
    let g = build_aria2_global_options(&c);
    assert_eq!(g[0], ("max-concurrent-downloads".to_string(), "2".to_string()));
    assert_eq!(g.len(), 4);
    assert_eq!(rpc_endpoint(16800), "http://localhost:16800/jsonrpc");
    assert_eq!(rpc_token_param("sec"), Some("token:sec".to_string()));
    assert_eq!(rpc_token_param(""), None);
    assert_eq!(download_cookie_header("t"), "Cookie: access_token=t");
    assert_eq!(download_options("f.bin", "/d").len(), 6);
}

#[test]
fn binary_lookup_and_old_process_cleanup() {
    assert_eq!(aria2_file_name(true), "aria2c.exe");
    assert_eq!(aria2_file_name(false), "aria2c");
    let cwd = Some(BinaryProbe { path: "/w/aria2c".to_string(), exists: false });
    let exe = Some(BinaryProbe { path: "/opt/aria2c".to_string(), exists: true });
    assert_eq!(aria2_binary_path("aria2c", &cwd, &exe), "/opt/aria2c");
    assert_eq!(aria2_binary_path("aria2c", &cwd, &None), "aria2c");
    assert!(check_aria2_exists(&cwd, &exe, false));
    assert!(!check_aria2_exists(&cwd, &None, false));

    let cmd = vec!["/opt/aria2c".to_string(), "--rpc-listen-port=16800".to_string()];
    assert!(should_kill_aria2_process(16800, &cmd, false, "ARIA2C"));
    assert!(!should_kill_aria2_process(16801, &cmd, false, "aria2c"));
    let rpc = vec!["x".to_string(), "--enable-rpc=true".to_string()];
    assert!(should_kill_aria2_process(16800, &rpc, true, "other"));
    assert!(!should_kill_aria2_process(16800, &rpc, false, "aria2c"));
}

#[test]
fn install_picks_the_right_asset() {
    let src = install_source("linux-arm64").ok().unwrap();
    assert_eq!(src.meta_url, "https://api.github.com/repos/P3TERX/Aria2-Pro-Core/releases/latest");
    assert_eq!(install_source("mips").err().unwrap(), "不支持的架构");
    let assets = vec![
        InstallAsset { name: None, browser_download_url: None, size: None },
        InstallAsset {
            name: Some("aria2-1.37.0-static-linux-arm64.tar.gz".to_string()),
            browser_download_url: Some("https://x/arm.tgz".to_string()),
            size: Some(10),
        },
    ];
    let chosen = pick_install_asset(InstallTarget::LinuxArm64, Some(&assets)).ok().unwrap();
    assert_eq!(chosen.download_url, "https://x/arm.tgz");
    assert_eq!(chosen.total, 10);
    assert_eq!(pick_install_asset(InstallTarget::WinX64, Some(&assets)).err().unwrap(), "未找到匹配的安装包");
    assert_eq!(pick_install_asset(InstallTarget::WinX64, None).err().unwrap(), "未找到发布资产");
    assert_eq!(
        mirror_urls("https://x/a"),
        vec!["https://gh.llkk.cc/https://x/a", "https://github.moeyy.xyz/https://x/a", "https://x/a"]
    );
    assert!(download_accepted(5, 10));
    assert!(!download_accepted(4, 10));
    assert!(download_accepted(1, 0));
    assert!(!download_accepted(0, 0));
    assert!(progress_due(262144, 10));
    assert!(!progress_due(262144 + 20, 10));
    assert_eq!(after_mirror(0, 3, false), MirrorMove::Try(1));
    assert_eq!(after_mirror(2, 3, false), MirrorMove::GiveUp);
    assert_eq!(after_mirror(1, 3, true), MirrorMove::Keep);
    let mut p = failed_progress("x", 7);
    start_mirror(&mut p, 1, "a.tgz");
    assert_eq!(p.message, "正在从源 2 下载 a.tgz ...");
    assert!(archive_kind(InstallTarget::WinX64) == ArchiveKind::Zip);
    assert_eq!(archive_file_names(ArchiveKind::TarGz).2, "压缩包中未找到 aria2c");
    assert!(archive_entry_is_binary(ArchiveKind::TarGz, "aria2-1.37/aria2c", false));
    assert!(!archive_entry_is_binary(ArchiveKind::TarGz, "aria2-1.37/aria2c.1", false));
    assert!(archive_entry_is_binary(ArchiveKind::Zip, "aria2-win/aria2c.exe", false));
}

#[test]
fn local_scan_sorts_and_hides() {
    let listing = LocalListing::Entries(vec![
        LocalEntry { name: "b.txt".to_string(), is_dir: false, size: 3, children: vec![] },
        LocalEntry { name: ".hidden".to_string(), is_dir: false, size: 1, children: vec![] },
        LocalEntry { name: "x.part".to_string(), is_dir: false, size: 1, children: vec![] },
        LocalEntry {
            name: "a".to_string(),
            is_dir: true,
            size: 0,
            children: vec![LocalEntry { name: "c.bin".to_string(), is_dir: false, size: 9, children: vec![] }],
        },
    ]);
    let nodes = scan_local_dir("/data", &listing).ok().unwrap();
    assert_eq!(nodes.len(), 2);
    assert_eq!(nodes[0].path, "/a");
    assert_eq!(nodes[0].children[0].path, "/a/c.bin");
    assert_eq!(nodes[1].path, "/b.txt");
    assert!(nodes[1].exists_locally);
    assert_eq!(scan_local_dir("/x", &LocalListing::Missing).err().unwrap(), "本地路径不存在: /x");
    assert_eq!(scan_local_dir("/x", &LocalListing::NotADirectory).err().unwrap(), "路径不是文件夹: /x");
}

#[test]
fn remote_listing_pages_and_tree() {
    assert_eq!(
        list_page_url_exec("https://td", "/a b", &Some("c/1".to_string())),
        "https://td/api/files?path=%2Fa%20b&sort=name&order=asc&limit=500&cursor=c%2F1"
    );
    assert_eq!(next_page_cursor(Some(String::new())), None);
    assert_eq!(next_page_cursor(Some("n".to_string())), Some("n".to_string()));
    let entries = vec![RemoteEntry {
        id: Some("7".to_string()),
        name: "docs".to_string(),
        file_type: "folder".to_string(),
        size: None,
        mime_type: None,
        children: vec![RemoteEntry {
            id: Some("8".to_string()),
            name: "r.pdf".to_string(),
            file_type: "file".to_string(),
            size: Some(12),
            mime_type: Some("application/pdf".to_string()),
            children: vec![],
        }],
    }];
    let tree = build_remote_tree(&entries, "/");
    assert_eq!(tree[0].path, "/docs");
    assert!(tree[0].is_dir);
    assert_eq!(tree[0].children[0].path, "/docs/r.pdf");
    assert_eq!(tree[0].children[0].size, 12);
}

#[test]
fn enqueue_errors_and_outcomes() {
    let c = base_config();
    assert_eq!(plan_enqueue(None, "/a", &c, false).err().unwrap(), "请先刷新文件树");
    let tree: Vec<telsync::tree::FileNode> = vec![];
    assert_eq!(plan_enqueue(Some(&tree), "/a", &c, false).err().unwrap(), "未找到指定路径");
    assert_eq!(download_dir_for("/data", "/x.bin", false), ("/data".to_string(), false));
    assert_eq!(download_dir_for("/data", "/a/b/x.bin", false), ("/data/a/b".to_string(), true));
    assert_eq!(enqueue_outcome(0, 0).err().unwrap(), "该目录下没有需要下载的新文件");
    assert_eq!(enqueue_outcome(3, 0).err().unwrap(), "Aria2 添加任务失败，请检查服务状态");
    assert_eq!(enqueue_outcome(3, 2).ok().unwrap().added_count, 2);
}

#[test]
fn task_views_and_plans() {
    let t = task("error", Some("D:\\Sync\\Movies"), "D:/Sync/Movies/a.mkv", None);
    assert_eq!(task_remote_path(&t, "d:/sync", false).unwrap(), "/Movies/a.mkv");
    let s = summarize_task_checked(&t, "d:/sync", false).unwrap();
    assert_eq!(s.status, "Failed");
    assert_eq!(s.file_name, "a.mkv");
    assert_eq!(s.total_size, 100);
    assert_eq!(s.downloaded, 40);
    assert_eq!(s.cleanup, vec!["D:/Sync/Movies/a.mkv".to_string()]);
    let via_uri = task(
        "active",
        Some("/data"),
        "/data/b.bin",
        Some("https://td/api/files/9/download?ts_path=%2Fdocs%2Fb.bin"),
    );
    assert_eq!(task_remote_path(&via_uri, "/data", false).unwrap(), "/docs/b.bin");
    let r = plan_remove(&via_uri);
    assert!(r.force_remove);
    assert_eq!(r.cleanup, vec!["/data/b.bin".to_string()]);
    let done = task("complete", Some("/data"), "/data/c.bin", None);
    assert!(plan_remove(&done).cleanup.is_empty());
    let retry = plan_retry_checked(&t, "d:/sync", "https://td", None, false).unwrap();
    assert_eq!(retry.err().unwrap(), "Missing retry source information");
    assert_eq!(
        plan_retry_checked(&via_uri, "/data", "https://td", None, false).unwrap().err().unwrap(),
        "Task is not retryable"
    );
    assert_eq!(
        build_download_url("https://td/", "9", "/docs/b c.bin").ok().unwrap(),
        "https://td/api/files/9/download?ts_path=%2Fdocs%2Fb+c.bin"
    );
}

#[test]
fn update_paths_and_steps() {
    assert_eq!(
        update_artifact_paths("/opt/telsync", false).ok().unwrap(),
        ("/opt/telsync.update.tmp".to_string(), "/opt/telsync.bak".to_string())
    );
    assert_eq!(extract_release_notes("  \n "), "暂无发布说明。");
    assert_eq!(extract_release_notes(" notes "), "notes");
    let info = UpdateInfo {
        current_version: "1.0.0".to_string(),
        latest_version: "1.1.0".to_string(),
        published_at: None,
        release_notes: String::new(),
        has_update: true,
        release_url: "https://r".to_string(),
        download_url: "https://r".to_string(),
        asset_name: Some("a".to_string()),
        supported_arch: true,
    };
    assert_eq!(update_download_url(&info).err().unwrap(), "未找到适用于当前架构的更新包");
    assert_eq!(replacement_steps(false, true, true, false).err().unwrap(), "当前程序文件不存在");
    assert_eq!(replacement_steps(true, false, true, false).err().unwrap(), "临时更新文件不存在");
    let steps = replacement_steps(true, true, true, true).ok().unwrap();
    assert_eq!(
        steps,
        vec![
            ReplaceStep::RemoveBackup,
            ReplaceStep::BackupExecutable,
            ReplaceStep::RemoveExecutable,
            ReplaceStep::MoveUpdateIntoPlace
        ]
    );
    assert_eq!(replacement_steps(true, true, false, false).ok().unwrap().len(), 2);
}

#[test]
fn delete_plans() {
    assert_eq!(plan_delete("/d/x", false, false).err().unwrap(), "本地文件不存在");
    match plan_delete("/d/x", true, false).ok().unwrap() {
        DeletePlan::File { file, control_file } => {
            assert_eq!(file, "/d/x");
            assert_eq!(control_file, "/d/x.aria2");
        }
        DeletePlan::Folder(_) => panic!("expected a file"),
    }
    assert!(matches!(plan_delete("/d", true, true).ok().unwrap(), DeletePlan::Folder(p) if p == "/d"));
}

#[test]
fn same_file_paths_by_platform() {
    assert!(same_file_path(true, "C:\\Tools\\ARIA2C.EXE", "c:\\tools\\aria2c.exe"));
    assert!(!same_file_path(false, "/opt/Aria2c", "/opt/aria2c"));
    assert!(same_file_path(false, "/opt//aria2c", "/opt/aria2c/"));
}

#[test]
fn startup_keeps_the_stored_folder() {
    let mut c = base_config();
    c.local_path = String::new();
    let o = telsync::config::startup_spawn_options(&c);
    assert_eq!(o.local_dir, "");
    assert_eq!(o.port, 16800);
}

#[test]
fn remaining_error_messages() {
    let mut present = telsync::tree::FileNode {
        name: "a.bin".to_string(),
        path: "/a.bin".to_string(),
        is_dir: false,
        size: 1,
        remote_id: Some("1".to_string()),
        mime_type: None,
        exists_locally: true,
        children: vec![],
    };
    let tree = vec![telsync::tree::copy_node(&present)];
    assert_eq!(plan_enqueue(Some(&tree), "/a.bin", &base_config(), false).err().unwrap(), "文件已存在本地");
    present.exists_locally = false;
    let tree = vec![present];
    let plan = plan_enqueue(Some(&tree), "/a.bin", &base_config(), false).ok().unwrap();
    assert_eq!(plan.jobs.len(), 1);
    assert_eq!(plan.jobs[0].out_dir, "/data");
    assert!(!plan.jobs[0].create_dir);

    let nameless = Aria2Task {
        gid: None,
        status: Some("error".to_string()),
        total_length: None,
        completed_length: None,
        download_speed: None,
        dir: Some("/data".to_string()),
        files: Some(vec![]),
    };
    assert_eq!(
        plan_retry_checked(&nameless, "/data", "https://td", None, false).unwrap().err().unwrap(),
        "Missing original file name"
    );
    let dirless = task("removed", None, "/data/x.bin", None);
    assert_eq!(
        plan_retry_checked(&dirless, "/data", "https://td", None, false).unwrap().err().unwrap(),
        "Missing original download directory"
    );
    let retry = plan_retry_checked(
        &task("error", Some("/data"), "/data/x.bin", Some("https://td/api/files/9/download?ts_path=%2Fx.bin")),
        "/data",
        "https://td",
        None,
        false,
    )
    .unwrap()
    .ok()
    .unwrap();
    assert_eq!(retry.url, "https://td/api/files/9/download?ts_path=%2Fx.bin");
    assert_eq!(retry.file_name, "x.bin");
    assert_eq!(retry.out_dir, "/data");

    assert_eq!(update_artifact_paths("/", false).err().unwrap(), "无法确定当前程序文件名");

    let mut info = UpdateInfo {
        current_version: "1.0.0".to_string(),
        latest_version: "1.0.0".to_string(),
        published_at: None,
        release_notes: String::new(),
        has_update: false,
        release_url: "https://r".to_string(),
        download_url: "https://r".to_string(),
        asset_name: None,
        supported_arch: true,
    };
    assert_eq!(update_download_url(&info).err().unwrap(), "当前已是最新版本");
    info.has_update = true;
    info.asset_name = Some("a".to_string());
    info.download_url = "   ".to_string();
    assert_eq!(update_download_url(&info).err().unwrap(), "更新包下载地址为空");
    info.download_url = "https://d".to_string();
    let windows = telsync::update::Platform {
        os: telsync::update::TargetOs::Windows,
        arch: telsync::update::TargetArch::X86_64,
    };
    assert_eq!(
        telsync::update::check_self_update(&info, &windows).err().unwrap(),
        "自动更新仅支持 Linux/OpenWrt 环境"
    );
    let linux = telsync::update::Platform {
        os: telsync::update::TargetOs::Linux,
        arch: telsync::update::TargetArch::Aarch64,
    };
    assert_eq!(telsync::update::check_self_update(&info, &linux).ok().unwrap(), "https://d");

    let candidate = telsync::paths::target_candidate("/root", "x/y.txt", false).ok().unwrap();
    assert_eq!(candidate.parent.as_deref(), Some("/root/x"));
    assert_eq!(
        telsync::paths::accept_target(
            "/root",
            &candidate,
            telsync::paths::TargetProbe::Exists(Some("/etc/y.txt".to_string())),
            false
        )
        .err()
        .unwrap(),
        "目标路径非法"
    );
    assert_eq!(
        telsync::paths::accept_target("/root", &candidate, telsync::paths::TargetProbe::Absent(None), false).err().unwrap(),
        "目标路径非法"
    );
    assert_eq!(
        telsync::paths::accept_target(
            "/root",
            &candidate,
            telsync::paths::TargetProbe::Absent(Some("/root/x".to_string())),
            false
        )
        .ok()
        .unwrap(),
        "/root/x/y.txt"
    );
}

#[test]
fn rpc_and_listing_errors() {
    assert_eq!(
        telsync::aria2_ctl::rpc_error_message(Some("Object {\"code\": Number(1)}")),
        Some("RPC 返回错误: Object {\"code\": Number(1)}".to_string())
    );
    assert_eq!(telsync::aria2_ctl::rpc_error_message(None), None);
    assert_eq!(telsync::teldrive::listing_status_error(200, "x"), None);
    assert_eq!(
        telsync::teldrive::listing_status_error(404, "gone"),
        Some("TelDrive API 返回 404 Not Found: gone".to_string())
    );
}

#[test]
fn windows_paths() {
    use_windows_checks();
}

fn use_windows_checks() {
    let t = Aria2Task {
        gid: None,
        status: Some("error".to_string()),
        total_length: None,
        completed_length: None,
        download_speed: None,
        dir: Some("C:\\dl\\Movies".to_string()),
        files: Some(vec![Aria2File { path: Some("C:\\dl\\Movies\\file.bin".to_string()), uris: None }]),
    };
    assert_eq!(telsync::tasks::task_file_name(&t, true), Some("file.bin".to_string()));
    assert_eq!(
        telsync::tasks::task_file_name(&t, false),
        Some("C:\\dl\\Movies\\file.bin".to_string())
    );
    assert_eq!(task_remote_path(&t, "c:/dl", true).unwrap(), "/Movies/file.bin");

    assert_eq!(
        telsync::paths::validate_relative_request_path("a\\..\\b", true).err().unwrap(),
        "目标路径非法"
    );
    assert_eq!(telsync::paths::validate_relative_request_path("a\\..\\b", false).ok().unwrap(), "a\\..\\b");
    assert_eq!(telsync::paths::validate_relative_request_path("a/./b\\c", true).ok().unwrap(), "a\\b\\c");
    for raw in ["C:\\x", "c:x", "./D:x", "\\x", "\\\\?\\C:\\x"] {
        assert_eq!(telsync::paths::validate_relative_request_path(raw, true).err().unwrap(), "目标路径非法");
    }

    let root = "\\\\?\\C:\\sync";
    let candidate = telsync::paths::target_candidate(root, "a\\b.txt", true).ok().unwrap();
    assert_eq!(candidate.joined, "\\\\?\\C:\\sync\\a\\b.txt");
    assert_eq!(candidate.parent.as_deref(), Some("\\\\?\\C:\\sync\\a"));
    assert_eq!(
        telsync::paths::accept_target(
            root,
            &candidate,
            telsync::paths::TargetProbe::Exists(Some("\\\\?\\C:\\sync\\a\\b.txt".to_string())),
            true
        )
        .ok()
        .unwrap(),
        "\\\\?\\C:\\sync\\a\\b.txt"
    );
    assert!(telsync::paths::path_within_root(Some(root), None, Some("\\\\?\\C:\\sync\\a"), true));
    assert!(!telsync::paths::path_within_root(Some(root), None, Some("\\\\?\\C:\\other"), true));

    assert_eq!(
        update_artifact_paths("C:\\opt\\telsync.exe", true).ok().unwrap(),
        ("C:\\opt\\telsync.exe.update.tmp".to_string(), "C:\\opt\\telsync.exe.bak".to_string())
    );
    assert_eq!(download_dir_for("D:\\sync", "/a/b/x.bin", true), ("D:\\sync\\a/b".to_string(), true));
    assert!(archive_entry_is_binary(ArchiveKind::TarGz, "aria2\\aria2c", true));
    assert_eq!(telsync::aria2_ctl::binary_candidate("C:\\tools", "aria2c.exe", true), "C:\\tools\\aria2c.exe");
}

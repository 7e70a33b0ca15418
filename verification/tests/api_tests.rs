use telsync::paths::{
    accept_target, cleanup_start, cleanup_step, path_starts_with_exec, target_candidate,
    tracked_aria2_related_paths, CleanupAction, CleanupEvent, CleanupState, TargetProbe,
};
use telsync::tasks::{collect_incomplete_task_file_paths, Aria2File, Aria2Task};
use telsync::update::{
    build_update_info_from_release, Platform, ReleaseInfo, TargetArch, TargetOs,
};

const ROOT: &str = "/tmp/telsync-root";

fn task_with_file(status: &str, path: &str) -> Aria2Task {
    Aria2Task {
        gid: None,
        status: Some(status.to_string()),
        total_length: None,
        completed_length: None,
        download_speed: None,
        dir: None,
        files: Some(vec![Aria2File { path: Some(path.to_string()), uris: None }]),
    }
}

fn linux_x64() -> Platform {
    Platform { os: TargetOs::Linux, arch: TargetArch::X86_64 }
}

/// Runs the pruning walk with the file system's answers given in order; returns the
/// folders it removed.
fn prune(root: &str, start: &str, answers: Vec<CleanupEvent>) -> Vec<String> {
    let mut removed = Vec::new();
    let mut state = cleanup_start(start, false);
    for event in answers {
        if matches!(state, CleanupState::Done) {
            break;
        }
        let (next, action) = cleanup_step(root, state, event, false);
        state = next;
        match action {
            CleanupAction::RemoveDir(d) => removed.push(d),
            CleanupAction::Finish => break,
            CleanupAction::Continue => {}
        }
    }
    removed
}

#[test]
fn allows_deleting_nested_files_inside_root() {
    let candidate = target_candidate(ROOT, "a/b/file.txt", false).ok().unwrap();
    assert_eq!(candidate.joined, "/tmp/telsync-root/a/b/file.txt");
    let resolved = accept_target(
        ROOT,
        &candidate,
        TargetProbe::Exists(Some("/tmp/telsync-root/a/b/file.txt".to_string())),
        false,
    )
    .unwrap();
    assert!(path_starts_with_exec(&resolved, ROOT));
}

#[test]
fn cleanup_prunes_empty_parent_dirs_but_keeps_root() {
    let removed = prune(
        ROOT,
        "/tmp/telsync-root/a/b/file.txt",
        vec![
            CleanupEvent::Canonical(Some("/tmp/telsync-root/a/b".to_string())),
            CleanupEvent::Listed(Some(true)),
            CleanupEvent::Canonical(Some("/tmp/telsync-root/a".to_string())),
            CleanupEvent::Listed(Some(true)),
            CleanupEvent::Canonical(Some(ROOT.to_string())),
            CleanupEvent::Listed(Some(true)),
        ],
    );
    assert_eq!(removed, vec!["/tmp/telsync-root/a/b".to_string(), "/tmp/telsync-root/a".to_string()]);
    assert!(!removed.iter().any(|d| d == ROOT));
}

#[test]
fn cleanup_download_artifacts_removes_partial_file_and_sidecars() {
    let file = "/tmp/telsync-root/a/b/file.bin";
    let related = tracked_aria2_related_paths(file);
    assert_eq!(
        related,
        vec![
            file.to_string(),
            "/tmp/telsync-root/a/b/file.bin.aria2".to_string(),
            "/tmp/telsync-root/a/b/file.bin.aria2__temp".to_string(),
        ]
    );
    let removed = prune(
        ROOT,
        file,
        vec![
            CleanupEvent::Canonical(Some("/tmp/telsync-root/a/b".to_string())),
            CleanupEvent::Listed(Some(true)),
            CleanupEvent::Canonical(Some("/tmp/telsync-root/a".to_string())),
            CleanupEvent::Listed(Some(true)),
            CleanupEvent::Canonical(Some(ROOT.to_string())),
        ],
    );
    assert!(!removed.iter().any(|d| d == ROOT));
}

#[test]
fn cleanup_download_artifacts_removes_sidecars_when_target_missing() {
    let file = "/tmp/telsync-root/a/b/file.bin";
    let related = tracked_aria2_related_paths(file);
    assert!(related.contains(&"/tmp/telsync-root/a/b/file.bin.aria2".to_string()));
    assert!(related.contains(&"/tmp/telsync-root/a/b/file.bin.aria2__temp".to_string()));
    let removed = prune(
        ROOT,
        file,
        vec![
            CleanupEvent::Canonical(Some("/tmp/telsync-root/a/b".to_string())),
            CleanupEvent::Listed(Some(false)),
        ],
    );
    assert!(removed.is_empty());
    assert!(telsync::paths::path_within_root(Some(ROOT), None, Some("/tmp/telsync-root/a/b"), false));
    assert!(!telsync::paths::path_within_root(Some(ROOT), None, Some("/tmp/elsewhere"), false));
    assert!(!telsync::paths::path_within_root(Some(ROOT), None, None, false));
}

#[test]
fn collect_incomplete_task_file_paths_skips_completed_tasks() {
    let tasks = vec![
        task_with_file("complete", "/tmp/task-paths/done.bin"),
        task_with_file("active", "/tmp/task-paths/partial.bin"),
        task_with_file("error", "/tmp/task-paths/failed.bin"),
    ];
    let paths = collect_incomplete_task_file_paths(&tasks);
    assert_eq!(
        paths,
        vec!["/tmp/task-paths/partial.bin".to_string(), "/tmp/task-paths/failed.bin".to_string()]
    );
}

#[test]
fn rejects_parent_directory_traversal() {
    let err = target_candidate(ROOT, "../outside.txt", false).err().unwrap();
    assert_eq!(err, "目标路径非法");
}

#[test]
fn rejects_absolute_paths() {
    let err = target_candidate(ROOT, "/tmp/escape.txt", false).err().unwrap();
    assert_eq!(err, "目标路径非法");
}

#[test]
fn update_info_detects_newer_version() {
    let release = ReleaseInfo {
        tag_name: Some("v1.2.0".to_string()),
        published_at: Some("2026-05-13T12:49:23Z".to_string()),
        body: Some("notes".to_string()),
        html_url: Some("https://example.com/release".to_string()),
        assets: Some(vec![]),
    };
    let info = build_update_info_from_release(&release, "1.1.0", &linux_x64());
    assert!(info.has_update);
    assert_eq!(info.download_url, "https://example.com/release");
}

#[test]
fn update_info_detects_same_version() {
    let release = ReleaseInfo {
        tag_name: Some("v1.2.0".to_string()),
        published_at: None,
        body: Some(String::new()),
        html_url: Some("https://example.com/release".to_string()),
        assets: Some(vec![]),
    };
    let info = build_update_info_from_release(&release, "1.2.0", &linux_x64());
    assert!(!info.has_update);
    assert_eq!(info.release_notes, "暂无发布说明。");
}

#[test]
fn artifact_removal_keeps_to_the_sync_folder() {
    let f = "/tmp/telsync-root/a/b/file.bin";
    let (all, prune) = telsync::paths::plan_artifact_removal(f, &vec![true, true, true, true]);
    assert!(prune);
    assert_eq!(
        all,
        vec![
            f.to_string(),
            "/tmp/telsync-root/a/b/file.bin.aria2".to_string(),
            "/tmp/telsync-root/a/b/file.bin.aria2__temp".to_string(),
        ]
    );
    let (some, _) = telsync::paths::plan_artifact_removal(f, &vec![true, false, true, false]);
    assert_eq!(some, vec!["/tmp/telsync-root/a/b/file.bin.aria2".to_string()]);
    let (none, prune) = telsync::paths::plan_artifact_removal("/etc/passwd", &vec![false, true, true, true]);
    assert!(none.is_empty());
    assert!(!prune);
}

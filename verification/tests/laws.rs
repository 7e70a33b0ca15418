use telsync::aria2_ctl::{apply_begin, apply_step, ApplyAction, ApplyEvent, ApplyNote, ApplyPhase};
use telsync::config::AppConfig;
use telsync::enqueue::plan_enqueue;
use telsync::paths::{path_join_exec, path_starts_with_exec, validate_relative_request_path};
use telsync::tree::{find_node, flatten_files, mark_local_existence, FileNode};

fn file(name: &str, path: &str, id: Option<&str>) -> FileNode {
    FileNode {
        name: name.to_string(),
        path: path.to_string(),
        is_dir: false,
        size: 1,
        remote_id: id.map(|s| s.to_string()),
        mime_type: None,
        exists_locally: false,
        children: vec![],
    }
}

fn folder(name: &str, path: &str, children: Vec<FileNode>) -> FileNode {
    FileNode {
        name: name.to_string(),
        path: path.to_string(),
        is_dir: true,
        size: 0,
        remote_id: Some(format!("id-{}", name)),
        mime_type: None,
        exists_locally: false,
        children,
    }
}

fn remote_tree() -> Vec<FileNode> {
    vec![
        folder(
            "movies",
            "/movies",
            vec![file("a.mkv", "/movies/a.mkv", Some("1")), file("b.mkv", "/movies/b.mkv", Some("2"))],
        ),
        file("notes.txt", "/notes.txt", Some("3")),
    ]
}

fn local_tree() -> Vec<FileNode> {
    vec![folder("movies", "/movies", vec![file("a.mkv", "/movies/a.mkv", None)])]
}

fn flags(nodes: &[FileNode]) -> Vec<(String, bool)> {
    let mut out = Vec::new();
    for n in nodes {
        out.push((n.path.clone(), n.exists_locally));
        out.extend(flags(&n.children));
    }
    out
}

fn config() -> AppConfig {
    AppConfig {
        teldrive_url: "https://td.example.com/".to_string(),
        access_token: "tok".to_string(),
        local_path: "/data".to_string(),
        max_concurrent_downloads: 2,
        proxy_url: String::new(),
        proxy_user: String::new(),
        proxy_passwd: String::new(),
        rpc_allow_remote: false,
        rpc_secret: String::new(),
    }
}

#[test]
fn marking_flags_what_exists_and_keeps_the_shape() {
    let mut remote = remote_tree();
    mark_local_existence(&mut remote, &local_tree());
    assert_eq!(
        flags(&remote),
        vec![
            ("/movies".to_string(), true),
            ("/movies/a.mkv".to_string(), true),
            ("/movies/b.mkv".to_string(), false),
            ("/notes.txt".to_string(), false),
        ]
    );
}

#[test]
fn marking_twice_changes_nothing() {
    let mut once = remote_tree();
    mark_local_existence(&mut once, &local_tree());
    let first = flags(&once);
    mark_local_existence(&mut once, &local_tree());
    assert_eq!(flags(&once), first);
}

#[test]
fn marking_against_an_empty_disk_clears_every_flag() {
    let mut remote = remote_tree();
    mark_local_existence(&mut remote, &local_tree());
    mark_local_existence(&mut remote, &[]);
    assert!(flags(&remote).iter().all(|(_, f)| !f));
}

#[test]
fn found_node_has_the_asked_path() {
    let tree = remote_tree();
    let n = find_node(&tree, "/movies/b.mkv").unwrap();
    assert_eq!(n.path, "/movies/b.mkv");
    assert!(find_node(&tree, "/movies/c.mkv").is_none());
}

#[test]
fn flattening_gives_only_files() {
    let tree = remote_tree();
    let files = flatten_files(&tree, "/movies");
    assert!(files.iter().all(|f| !f.is_dir));
    let paths: Vec<&str> = files.iter().map(|f| f.path.as_str()).collect();
    assert_eq!(paths, vec!["/movies/b.mkv", "/movies/a.mkv"]);
    assert!(flatten_files(&tree, "/nothing").is_empty());
}

#[test]
fn only_missing_files_are_queued() {
    let mut remote = remote_tree();
    mark_local_existence(&mut remote, &local_tree());
    let plan = plan_enqueue(Some(&remote), "/movies", &config(), false).ok().unwrap();
    assert_eq!(plan.file_count, 1);
    assert_eq!(plan.jobs.len(), 1);
    assert_eq!(plan.jobs[0].file_name, "b.mkv");
    assert_eq!(plan.jobs[0].out_dir, "/data/movies");
    assert!(plan.jobs[0].create_dir);
    assert!(plan.jobs[0].url.starts_with("https://td.example.com/api/files/2/download?ts_path="));
    assert!(plan.stop.is_none());
}

#[test]
fn checked_request_paths_stay_below_the_root() {
    for raw in ["a/b/file.txt", "./a/./b", " x/y ", "a//b/"] {
        let rel = validate_relative_request_path(raw, false).ok().unwrap();
        let joined = path_join_exec("/srv/sync", &rel);
        assert!(path_starts_with_exec(&joined, "/srv/sync"));
        assert!(!joined.split('/').any(|p| p == ".."));
    }
    assert_eq!(validate_relative_request_path("./a/./b", false).ok().unwrap(), "a/b");
    for raw in ["../x", "a/../../x", "/etc/passwd", "", "  ", "./."] {
        assert_eq!(validate_relative_request_path(raw, false).err().unwrap(), "目标路径非法");
    }
}

fn run(restart: bool, events: Vec<ApplyEvent>) -> (Vec<ApplyAction>, usize) {
    let (mut state, first) = apply_begin(restart);
    let mut actions = vec![first];
    let mut steps = 0;
    for e in events {
        let (next, action) = apply_step(state, e).unwrap();
        steps += 1;
        assert_eq!(next.restart, restart);
        state = next;
        actions.push(action);
        if matches!(action, ApplyAction::Finish { .. }) {
            assert!(matches!(state.phase, ApplyPhase::Done));
            break;
        }
    }
    (actions, steps)
}

#[test]
fn applying_a_config_ends_with_a_fitting_note() {
    let (actions, steps) = run(false, vec![ApplyEvent::Applied(true)]);
    assert_eq!(steps, 1);
    assert!(matches!(actions[1], ApplyAction::Finish { set_secret: false, note: ApplyNote::AppliedNow }));

    let (actions, steps) = run(
        false,
        vec![ApplyEvent::Applied(false), ApplyEvent::Installed(true), ApplyEvent::Spawned(true), ApplyEvent::Applied(false)],
    );
    assert_eq!(steps, 4);
    assert!(matches!(actions[3], ApplyAction::SecretThenResend { wait_ms: 300 }));
    assert!(matches!(actions[4], ApplyAction::Finish { set_secret: false, note: ApplyNote::NotConnected }));

    let (actions, steps) = run(
        true,
        vec![ApplyEvent::Installed(true), ApplyEvent::ShutDown, ApplyEvent::Spawned(true), ApplyEvent::Applied(true)],
    );
    assert_eq!(steps, 4);
    assert!(matches!(actions[1], ApplyAction::Shutdown { wait_ms: 400 }));
    assert!(matches!(actions[3], ApplyAction::SecretThenResend { wait_ms: 350 }));
    assert!(matches!(actions[4], ApplyAction::Finish { set_secret: false, note: ApplyNote::RestartedAndApplied }));

    let (actions, _) = run(true, vec![ApplyEvent::Installed(false)]);
    assert!(matches!(actions[1], ApplyAction::Finish { set_secret: true, note: ApplyNote::AppliesAfterInstall }));
}

#[test]
fn an_answer_to_another_question_is_refused() {
    let (state, _) = apply_begin(true);
    assert!(apply_step(state, ApplyEvent::Applied(true)).is_none());
    let (state, _) = apply_begin(false);
    assert!(apply_step(state, ApplyEvent::ShutDown).is_none());
}

#[test]
fn a_local_file_in_place_of_a_folder_clears_the_folder() {
    let mut remote = remote_tree();
    mark_local_existence(&mut remote, &local_tree());
    let local = vec![file("movies", "/movies", None)];
    mark_local_existence(&mut remote, &local);
    assert!(flags(&remote).iter().all(|(_, f)| !f));
}

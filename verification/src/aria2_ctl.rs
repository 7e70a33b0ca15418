//! Decisions around the local aria2 process: which binary runs, which old processes are
//! stopped, and how a saved configuration reaches a running aria2.
use vstd::prelude::*;
use crate::config::{AppConfig, build_save_message, save_message, strings_view};
use crate::paths::{path_join_on, path_join_on_exec};
use crate::text::{ascii_lowercase, ascii_lowercase_str, chars_of, concat2, contains, contains_exec, decimal, u64_to_string};

verus! {

/// The aria2 executable's file name: `aria2c.exe` on Windows, `aria2c` elsewhere.
pub open spec fn aria2_file_name_spec(windows: bool) -> Seq<char> {
    if windows {
        "aria2c.exe"@
    } else {
        "aria2c"@
    }
}

pub fn aria2_file_name(windows: bool) -> (r: &'static str)
    ensures
        r@ == aria2_file_name_spec(windows),
{
    if windows {
        "aria2c.exe"
    } else {
        "aria2c"
    }
}

/// A place where the aria2 binary may be, and whether a file is there.
pub struct BinaryProbe {
    pub path: String,
    pub exists: bool,
}

/// The candidate for the binary in a folder: the folder joined with the file name.
pub fn binary_candidate(dir: &str, file_name: &str, windows: bool) -> (r: String)
    ensures
        r@ == path_join_on(windows, dir@, file_name@),
{
    path_join_on_exec(windows, dir, file_name)
}

pub open spec fn probe_view(p: Option<BinaryProbe>) -> Option<(Seq<char>, bool)> {
    match p {
        Some(b) => Some((b.path@, b.exists)),
        None => None,
    }
}

/// The binary that is run: the candidate in the working folder when a file is there, else
/// the one beside the panel's own executable when a file is there, else the bare file name.
pub open spec fn binary_choice(file_name: Seq<char>, in_cwd: Option<(Seq<char>, bool)>, in_exe_dir: Option<(Seq<char>, bool)>) -> Seq<char> {
    match in_cwd {
        Some((p, true)) => p,
        _ => match in_exe_dir {
            Some((p, true)) => p,
            _ => file_name,
        },
    }
}

pub fn aria2_binary_path(file_name: &str, in_cwd: &Option<BinaryProbe>, in_exe_dir: &Option<BinaryProbe>) -> (r: String)
    ensures
        r@ == binary_choice(file_name@, probe_view(*in_cwd), probe_view(*in_exe_dir)),
{
    if let Some(p) = in_cwd {
        if p.exists {
            return p.path.clone();
        }
    }
    if let Some(p) = in_exe_dir {
        if p.exists {
            return p.path.clone();
        }
    }
    file_name.to_owned()
}

/// Whether aria2 is installed: a file is at the chosen candidate; when neither candidate has
/// one, `bare_exists` says whether the bare file name resolves to a file.
pub fn check_aria2_exists(in_cwd: &Option<BinaryProbe>, in_exe_dir: &Option<BinaryProbe>, bare_exists: bool) -> (r: bool)
    ensures
        r == (probe_view(*in_cwd) matches Some((_, true)) || probe_view(*in_exe_dir) matches Some((_, true)) || bare_exists),
{
    let in_cwd_found = match in_cwd {
        Some(p) => p.exists,
        None => false,
    };
    let in_exe_found = match in_exe_dir {
        Some(p) => p.exists,
        None => false,
    };
    in_cwd_found || in_exe_found || bare_exists
}

/// The parts joined with one space between them.
pub open spec fn join_spaced(ps: Seq<Seq<char>>) -> Seq<char>
    decreases ps.len(),
{
    if ps.len() == 0 {
        Seq::empty()
    } else if ps.len() == 1 {
        ps[0]
    } else {
        join_spaced(ps.drop_last()) + seq![' '] + ps.last()
    }
}

fn join_with_space(parts: &Vec<String>) -> (r: Vec<char>)
    ensures
        r@ == join_spaced(strings_view(parts@)),
{
    let mut r: Vec<char> = Vec::new();
    let mut i: usize = 0;
    while i < parts.len()
        invariant
            i <= parts@.len(),
            r@ == join_spaced(strings_view(parts@).subrange(0, i as int)),
        decreases parts@.len() - i,
    {
        let ghost before = r@;
        if i > 0 {
            r.push(' ');
        }
        let piece = chars_of(parts[i].as_str());
        let mut k: usize = 0;
        while k < piece.len()
            invariant
                k <= piece@.len(),
                r@ == (if i > 0 { before + seq![' '] } else { before }) + piece@.subrange(0, k as int),
            decreases piece@.len() - k,
        {
            r.push(piece[k]);
            k = k + 1;
            assert(piece@.subrange(0, k as int) =~= piece@.subrange(0, k - 1).push(piece@[k - 1]));
        }
        i = i + 1;
        let ghost sub = strings_view(parts@).subrange(0, i as int);
        assert(sub.drop_last() =~= strings_view(parts@).subrange(0, i - 1));
        assert(piece@.subrange(0, k as int) =~= piece@);
        if i == 1 {
            assert(r@ =~= sub[0]);
        } else {
            assert(r@ =~= join_spaced(sub.drop_last()) + seq![' '] + sub.last());
        }
    }
    assert(strings_view(parts@).subrange(0, parts@.len() as int) =~= strings_view(parts@));
    r
}

/// The command-line flag that names the RPC port.
pub open spec fn port_flag(port: u16) -> Seq<char> {
    "--rpc-listen-port="@ + decimal(port as nat)
}

/// Whether a running process is an aria2 that this panel manages and must stop before a
/// new one starts: one whose executable is the panel's aria2 binary and whose command line
/// names the panel's RPC port or turns RPC on, or one whose command line names the port and
/// whose name contains `aria2` in any case.
pub open spec fn kill_verdict(port: u16, cmd: Seq<Seq<char>>, exe_matches: bool, name: Seq<char>) -> bool {
    let line = join_spaced(cmd);
    let port_matches = contains(line, port_flag(port));
    (exe_matches && (port_matches || contains(line, "--enable-rpc=true"@))) || (port_matches
        && contains(ascii_lowercase(name), "aria2"@))
}

pub fn should_kill_aria2_process(port: u16, cmd: &Vec<String>, exe_matches: bool, name: &str) -> (r: bool)
    ensures
        r == kill_verdict(port, strings_view(cmd@), exe_matches, name@),
{
    let line = join_with_space(cmd);
    let flag = chars_of(concat2("--rpc-listen-port=", u64_to_string(port as u64).as_str()).as_str());
    let port_matches = contains_exec(&line, &flag);
    let rpc_on = chars_of("--enable-rpc=true");
    let lowered = ascii_lowercase_str(name);
    let lowered_chars = chars_of(lowered.as_str());
    let needle = chars_of("aria2");
    let rpc_matches = contains_exec(&line, &rpc_on);
    let named_aria2 = contains_exec(&lowered_chars, &needle);
    (exe_matches && (port_matches || rpc_matches)) || (port_matches && named_aria2)
}

/// Where the application of a saved configuration to aria2 stands.
#[derive(Clone, Copy, Debug, PartialEq, Eq, Structural)]
pub enum ApplyPhase {
    /// The new run-time options were sent to the running aria2.
    Applying,
    /// Whether the aria2 binary is present was asked.
    CheckingInstalled,
    /// The old aria2 was told to shut down.
    ShuttingDown,
    /// A new aria2 was started.
    Spawning,
    /// The secret was set and the options sent again.
    Reapplying,
    /// Finished.
    Done,
}

/// A run of applying a saved configuration: whether the RPC settings changed (so aria2 must
/// restart), and the phase it is in.
#[derive(Clone, Copy, Debug, PartialEq, Eq, Structural)]
pub struct ApplyState {
    pub restart: bool,
    pub phase: ApplyPhase,
}

/// What came of the last action.
#[derive(Clone, Copy, Debug, PartialEq, Eq, Structural)]
pub enum ApplyEvent {
    /// Whether the aria2 binary is present.
    Installed(bool),
    /// The shutdown request was answered, whatever the answer.
    ShutDown,
    /// Whether a new aria2 started.
    Spawned(bool),
    /// Whether aria2 accepted the run-time options.
    Applied(bool),
}

/// How a run ended, in the words the user reads.
#[derive(Clone, Copy, Debug, PartialEq, Eq, Structural)]
pub enum ApplyNote {
    AppliedNow,
    AppliesAfterInstall,
    RestartedAndApplied,
    Restarted,
    RestartFailed,
    LoadsOnStart,
    Reconnected,
    NotConnected,
}

/// What to do next.
#[derive(Clone, Copy, Debug, PartialEq, Eq, Structural)]
pub enum ApplyAction {
    /// Send the run-time options (`build_aria2_global_options`) to aria2.
    SendOptions,
    /// Ask whether the aria2 binary is present.
    CheckInstalled,
    /// Ask aria2 to shut down, then wait this many milliseconds.
    Shutdown { wait_ms: u64 },
    /// Start aria2 with the options from `spawn_options_from_config`.
    Spawn,
    /// Set the RPC client's secret, wait this many milliseconds, then send the options again.
    SecretThenResend { wait_ms: u64 },
    /// Stop, after setting the RPC client's secret where asked, and answer with the note.
    Finish { set_secret: bool, note: ApplyNote },
}

/// The text of each note.
pub open spec fn note_text(n: ApplyNote) -> Seq<char> {
    match n {
        ApplyNote::AppliedNow => "配置已保存并已应用到 Aria2"@,
        ApplyNote::AppliesAfterInstall => "配置已保存，Aria2 安装后会按新的 RPC 设置启动"@,
        ApplyNote::RestartedAndApplied => "配置已保存，Aria2 已重启并应用新的 RPC 设置"@,
        ApplyNote::Restarted => "配置已保存，Aria2 已按新的 RPC 设置重启"@,
        ApplyNote::RestartFailed => "配置已保存，但当前未能重启 Aria2；下次启动后会按新 RPC 设置加载"@,
        ApplyNote::LoadsOnStart => "配置已保存，Aria2 启动后会自动加载"@,
        ApplyNote::Reconnected => "配置已保存，Aria2 已重连并应用"@,
        ApplyNote::NotConnected => "配置已保存，但当前未能连接 Aria2；下次启动后会自动加载"@,
    }
}

fn note_str(n: ApplyNote) -> (r: &'static str)
    ensures
        r@ == note_text(n),
{
    match n {
        ApplyNote::AppliedNow => "配置已保存并已应用到 Aria2",
        ApplyNote::AppliesAfterInstall => "配置已保存，Aria2 安装后会按新的 RPC 设置启动",
        ApplyNote::RestartedAndApplied => "配置已保存，Aria2 已重启并应用新的 RPC 设置",
        ApplyNote::Restarted => "配置已保存，Aria2 已按新的 RPC 设置重启",
        ApplyNote::RestartFailed => "配置已保存，但当前未能重启 Aria2；下次启动后会按新 RPC 设置加载",
        ApplyNote::LoadsOnStart => "配置已保存，Aria2 启动后会自动加载",
        ApplyNote::Reconnected => "配置已保存，Aria2 已重连并应用",
        ApplyNote::NotConnected => "配置已保存，但当前未能连接 Aria2；下次启动后会自动加载",
    }
}

/// The answer to a saved configuration whose run ended with `note`.
pub fn apply_message(note: ApplyNote, config: &AppConfig) -> (r: String)
    ensures
        r@ == save_message(note_text(note), *config),
{
    build_save_message(note_str(note), config)
}

/// The first step: a restart begins by asking whether aria2 is installed, anything else by
/// sending the options to the running aria2.
pub open spec fn apply_first(restart: bool) -> (ApplyState, ApplyAction) {
    if restart {
        (ApplyState { restart, phase: ApplyPhase::CheckingInstalled }, ApplyAction::CheckInstalled)
    } else {
        (ApplyState { restart, phase: ApplyPhase::Applying }, ApplyAction::SendOptions)
    }
}

pub fn apply_begin(restart: bool) -> (r: (ApplyState, ApplyAction))
    ensures
        r == apply_first(restart),
{
    if restart {
        (ApplyState { restart, phase: ApplyPhase::CheckingInstalled }, ApplyAction::CheckInstalled)
    } else {
        (ApplyState { restart, phase: ApplyPhase::Applying }, ApplyAction::SendOptions)
    }
}

/// The step after `e`, or `None` when `e` does not answer what the phase asked.
///
/// Without a restart: options accepted ends the run; refused, the binary is looked for;
/// missing, the run ends and the options load when aria2 starts; present, aria2 is started,
/// and once it runs the secret is set and the options sent again after 300 ms.
/// With a restart: a missing binary ends the run; a present one is shut down with a 400 ms
/// wait, then started; once it runs the secret is set and the options sent after 350 ms.
pub open spec fn apply_next(s: ApplyState, e: ApplyEvent) -> Option<(ApplyState, ApplyAction)> {
    let done = ApplyState { restart: s.restart, phase: ApplyPhase::Done };
    match (s.phase, e) {
        (ApplyPhase::Applying, ApplyEvent::Applied(true)) => if s.restart {
            None
        } else {
            Some((done, ApplyAction::Finish { set_secret: false, note: ApplyNote::AppliedNow }))
        },
        (ApplyPhase::Applying, ApplyEvent::Applied(false)) => if s.restart {
            None
        } else {
            Some((ApplyState { phase: ApplyPhase::CheckingInstalled, ..s }, ApplyAction::CheckInstalled))
        },
        (ApplyPhase::CheckingInstalled, ApplyEvent::Installed(false)) => Some((
            done,
            ApplyAction::Finish {
                set_secret: true,
                note: if s.restart { ApplyNote::AppliesAfterInstall } else { ApplyNote::LoadsOnStart },
            },
        )),
        (ApplyPhase::CheckingInstalled, ApplyEvent::Installed(true)) => if s.restart {
            Some((ApplyState { phase: ApplyPhase::ShuttingDown, ..s }, ApplyAction::Shutdown { wait_ms: 400 }))
        } else {
            Some((ApplyState { phase: ApplyPhase::Spawning, ..s }, ApplyAction::Spawn))
        },
        (ApplyPhase::ShuttingDown, ApplyEvent::ShutDown) => Some((ApplyState { phase: ApplyPhase::Spawning, ..s }, ApplyAction::Spawn)),
        (ApplyPhase::Spawning, ApplyEvent::Spawned(false)) => Some((
            done,
            ApplyAction::Finish {
                set_secret: false,
                note: if s.restart { ApplyNote::RestartFailed } else { ApplyNote::NotConnected },
            },
        )),
        (ApplyPhase::Spawning, ApplyEvent::Spawned(true)) => Some((
            ApplyState { phase: ApplyPhase::Reapplying, ..s },
            ApplyAction::SecretThenResend { wait_ms: if s.restart { 350 } else { 300 } },
        )),
        (ApplyPhase::Reapplying, ApplyEvent::Applied(ok)) => Some((
            done,
            ApplyAction::Finish {
                set_secret: false,
                note: if s.restart {
                    if ok { ApplyNote::RestartedAndApplied } else { ApplyNote::Restarted }
                } else {
                    if ok { ApplyNote::Reconnected } else { ApplyNote::NotConnected }
                },
            },
        )),
        _ => None,
    }
}

/// How far a phase is from the end; every step lowers it.
pub open spec fn phase_rank(p: ApplyPhase) -> nat {
    match p {
        ApplyPhase::Applying => 5,
        ApplyPhase::CheckingInstalled => 4,
        ApplyPhase::ShuttingDown => 3,
        ApplyPhase::Spawning => 2,
        ApplyPhase::Reapplying => 1,
        ApplyPhase::Done => 0,
    }
}

/// Takes one step. Every step keeps the restart flag and lowers the phase's rank, so a run
/// ends after at most five events, and it ends exactly when the action is `Finish`.
pub fn apply_step(s: ApplyState, e: ApplyEvent) -> (r: Option<(ApplyState, ApplyAction)>)
    ensures
        r == apply_next(s, e),
        r matches Some((n, a)) ==> n.restart == s.restart && phase_rank(n.phase) < phase_rank(s.phase)
            && ((n.phase == ApplyPhase::Done) <==> (a is Finish)),
{
    let restart = s.restart;
    let done = ApplyState { restart, phase: ApplyPhase::Done };
    match (s.phase, e) {
        (ApplyPhase::Applying, ApplyEvent::Applied(true)) => if restart {
            None
        } else {
            Some((done, ApplyAction::Finish { set_secret: false, note: ApplyNote::AppliedNow }))
        },
        (ApplyPhase::Applying, ApplyEvent::Applied(false)) => if restart {
            None
        } else {
            Some((ApplyState { restart, phase: ApplyPhase::CheckingInstalled }, ApplyAction::CheckInstalled))
        },
        (ApplyPhase::CheckingInstalled, ApplyEvent::Installed(false)) => {
            let note = if restart { ApplyNote::AppliesAfterInstall } else { ApplyNote::LoadsOnStart };
            Some((done, ApplyAction::Finish { set_secret: true, note }))
        },
        (ApplyPhase::CheckingInstalled, ApplyEvent::Installed(true)) => if restart {
            Some((ApplyState { restart, phase: ApplyPhase::ShuttingDown }, ApplyAction::Shutdown { wait_ms: 400 }))
        } else {
            Some((ApplyState { restart, phase: ApplyPhase::Spawning }, ApplyAction::Spawn))
        },
        (ApplyPhase::ShuttingDown, ApplyEvent::ShutDown) => Some((ApplyState { restart, phase: ApplyPhase::Spawning }, ApplyAction::Spawn)),
        (ApplyPhase::Spawning, ApplyEvent::Spawned(false)) => {
            let note = if restart { ApplyNote::RestartFailed } else { ApplyNote::NotConnected };
            Some((done, ApplyAction::Finish { set_secret: false, note }))
        },
        (ApplyPhase::Spawning, ApplyEvent::Spawned(true)) => {
            let wait_ms: u64 = if restart { 350 } else { 300 };
            Some((ApplyState { restart, phase: ApplyPhase::Reapplying }, ApplyAction::SecretThenResend { wait_ms }))
        },
        (ApplyPhase::Reapplying, ApplyEvent::Applied(ok)) => {
            let note = if restart {
                if ok { ApplyNote::RestartedAndApplied } else { ApplyNote::Restarted }
            } else {
                if ok { ApplyNote::Reconnected } else { ApplyNote::NotConnected }
            };
            Some((done, ApplyAction::Finish { set_secret: false, note }))
        },
        _ => None,
    }
}

/// The notes a run can end with: a run with a restart only ever ends with one of the four
/// restart notes, and a run without one only with one of the other four.
pub open spec fn note_fits(restart: bool, n: ApplyNote) -> bool {
    if restart {
        n is AppliesAfterInstall || n is RestartedAndApplied || n is Restarted || n is RestartFailed
    } else {
        n is AppliedNow || n is LoadsOnStart || n is Reconnected || n is NotConnected
    }
}

/// Whichever events come, a run that restarts aria2 ends with a restart note and a run that
/// does not ends with one of the others.
pub proof fn finish_note_fits_run(s: ApplyState, e: ApplyEvent)
    ensures
        apply_next(s, e) matches Some((_, ApplyAction::Finish { set_secret, note })) ==> note_fits(s.restart, note),
{
}

/// A run sets the RPC client's secret as it finishes only when it found no aria2 binary;
/// where aria2 was started, the secret was set before the options were sent again.
pub proof fn secret_set_on_finish_only_when_missing(s: ApplyState, e: ApplyEvent)
    ensures
        apply_next(s, e) matches Some((_, ApplyAction::Finish { set_secret: true, note })) ==> e == ApplyEvent::Installed(false),
{
}


/// The address of aria2's JSON-RPC interface on this machine.
pub fn rpc_endpoint(port: u16) -> (r: String)
    ensures
        r@ == "http://localhost:"@ + decimal(port as nat) + "/jsonrpc"@,
{
    let p = u64_to_string(port as u64);
    crate::text::concat3("http://localhost:", p.as_str(), "/jsonrpc")
}

/// The first parameter of every RPC call when a secret is set: `token:` and the secret.
pub fn rpc_token_param(secret: &str) -> (r: Option<String>)
    ensures
        secret@.len() == 0 ==> r is None,
        secret@.len() > 0 ==> (r matches Some(t) && t@ == "token:"@ + secret@),
{
    if secret.is_empty() {
        None
    } else {
        Some(concat2("token:", secret))
    }
}

/// The header that lets aria2 download from TelDrive with the access token.
pub fn download_cookie_header(access_token: &str) -> (r: String)
    ensures
        r@ == "Cookie: access_token="@ + access_token@,
{
    concat2("Cookie: access_token=", access_token)
}

/// The options of a new download besides its cookie header: its file name and folder, 16
/// connections and pieces, resuming, and never overwriting.
pub open spec fn add_uri_options(out: Seq<char>, dir: Seq<char>) -> Seq<(Seq<char>, Seq<char>)> {
    seq![
        ("out"@, out),
        ("dir"@, dir),
        ("max-connection-per-server"@, "16"@),
        ("split"@, "16"@),
        ("continue"@, "true"@),
        ("allow-overwrite"@, "false"@),
    ]
}

pub fn download_options(out: &str, dir: &str) -> (r: Vec<(String, String)>)
    ensures
        crate::config::string_pairs_view(r@) == add_uri_options(out@, dir@),
{
    let mut r: Vec<(String, String)> = Vec::new();
    r.push(("out".to_owned(), out.to_owned()));
    r.push(("dir".to_owned(), dir.to_owned()));
    r.push(("max-connection-per-server".to_owned(), "16".to_owned()));
    r.push(("split".to_owned(), "16".to_owned()));
    r.push(("continue".to_owned(), "true".to_owned()));
    r.push(("allow-overwrite".to_owned(), "false".to_owned()));
    assert(crate::config::string_pairs_view(r@) =~= add_uri_options(out@, dir@));
    r
}


/// The error of an RPC answer that carries an `error` member (given as its debug text): the
/// text after a fixed prefix; none when the answer has no such member.
pub fn rpc_error_message(error_text: Option<&str>) -> (r: Option<String>)
    ensures
        error_text is None ==> r is None,
        error_text matches Some(t) ==> (r matches Some(e) && e@ == "RPC 返回错误: "@ + t@),
{
    match error_text {
        Some(t) => Some(concat2("RPC 返回错误: ", t)),
        None => None,
    }
}

} // verus!

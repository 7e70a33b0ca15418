//! What the panel reads out of aria2's task reports.
use vstd::prelude::*;
use vstd::utf8::{decode_utf8, encode_utf8, is_char_boundary, encode_utf8_decode_utf8};
use crate::outside::{parse_url, spec_url_parse, to_lowercase, spec_to_lowercase, opt_str_view, url_with_pair, spec_url_with_pair};
use crate::paths::{file_name_on, path_file_name_on, slashes, slashes_str};
use crate::text::{chars_of, concat2, concat3, starts_with, starts_with_exec, str_eq, strip_trailing, strip_trailing_str, parse_u64, parse_u64_str};
use crate::outside::push_char;
use crate::tree::{FileNode, find_spec, nodes_view, find_remote_id_by_path};

verus! {

/// One file of an aria2 task: its `path` and the `uri` of each entry of its `uris`, where
/// those are strings.
pub struct Aria2File {
    pub path: Option<String>,
    pub uris: Option<Vec<Option<String>>>,
}

/// The fields of an aria2 task that the panel reads, each present only where aria2 reported
/// it as a string (`files` where it reported an array).
pub struct Aria2Task {
    pub gid: Option<String>,
    pub status: Option<String>,
    pub total_length: Option<String>,
    pub completed_length: Option<String>,
    pub download_speed: Option<String>,
    pub dir: Option<String>,
    pub files: Option<Vec<Aria2File>>,
}

pub open spec fn first_file(t: Aria2Task) -> Option<Aria2File> {
    match t.files {
        Some(fs) => if fs@.len() > 0 {
            Some(fs@[0])
        } else {
            None
        },
        None => None,
    }
}

/// The path of the task's first file.
pub open spec fn task_path(t: Aria2Task) -> Option<Seq<char>> {
    match first_file(t) {
        Some(f) => opt_str_view(f.path),
        None => None,
    }
}

/// The file name of the task's first file.
pub open spec fn task_name(t: Aria2Task, windows: bool) -> Option<Seq<char>> {
    match task_path(t) {
        Some(p) => file_name_on(windows, p),
        None => None,
    }
}

pub fn task_file_path(task: &Aria2Task) -> (r: Option<String>)
    ensures
        opt_str_view(r) == task_path(*task),
{
    match &task.files {
        Some(fs) => if fs.len() > 0 {
            match &fs[0].path {
                Some(p) => Some(p.clone()),
                None => None,
            }
        } else {
            None
        },
        None => None,
    }
}

pub fn task_file_name(task: &Aria2Task, windows: bool) -> (r: Option<String>)
    ensures
        opt_str_view(r) == task_name(*task, windows),
{
    match task_file_path(task) {
        Some(p) => path_file_name_on(windows, p.as_str()),
        None => None,
    }
}

/// The first present entry of `s`.
pub open spec fn first_some(s: Seq<Option<String>>) -> Option<Seq<char>>
    decreases s.len(),
{
    if s.len() == 0 {
        None
    } else {
        match s[0] {
            Some(u) => Some(u@),
            None => first_some(s.drop_first()),
        }
    }
}

/// The first string `uri` of the task's first file.
pub open spec fn first_uri(t: Aria2Task) -> Option<Seq<char>> {
    match first_file(t) {
        Some(f) => match f.uris {
            Some(us) => first_some(us@),
            None => None,
        },
        None => None,
    }
}

pub fn extract_retry_url(task: &Aria2Task) -> (r: Option<String>)
    ensures
        opt_str_view(r) == first_uri(*task),
{
    let fs = match &task.files {
        Some(fs) => fs,
        None => return None,
    };
    if fs.len() == 0 {
        return None;
    }
    let us = match &fs[0].uris {
        Some(us) => us,
        None => return None,
    };
    let mut i: usize = 0;
    assert(us@.subrange(0, us@.len() as int) =~= us@);
    assert(first_uri(*task) == first_some(us@));
    while i < us.len()
        invariant
            i <= us@.len(),
            first_uri(*task) == first_some(us@),
            first_some(us@) == first_some(us@.subrange(i as int, us@.len() as int)),
        decreases us@.len() - i,
    {
        assert(us@.subrange(i as int, us@.len() as int).drop_first() =~= us@.subrange(i + 1, us@.len() as int));
        assert(us@.subrange(i as int, us@.len() as int)[0] == us@[i as int]);
        match &us[i] {
            Some(u) => return Some(u.clone()),
            None => {},
        }
        i = i + 1;
    }
    None
}

/// The value of the first `ts_path` pair.
pub open spec fn ts_path_of(pairs: Seq<(Seq<char>, Seq<char>)>) -> Option<Seq<char>>
    decreases pairs.len(),
{
    if pairs.len() == 0 {
        None
    } else if pairs[0].0 == "ts_path"@ {
        Some(pairs[0].1)
    } else {
        ts_path_of(pairs.drop_first())
    }
}

/// The remote path that the task's first URI carries in its `ts_path` query parameter.
pub open spec fn uri_ts_path(t: Aria2Task) -> Option<Seq<char>> {
    match first_uri(t) {
        Some(u) => match spec_url_parse(u) {
            Some(parts) => ts_path_of(parts.query_pairs),
            None => None,
        },
        None => None,
    }
}

fn uri_ts_path_exec(task: &Aria2Task) -> (r: Option<String>)
    ensures
        opt_str_view(r) == uri_ts_path(*task),
{
    let uri = match extract_retry_url(task) {
        Some(u) => u,
        None => return None,
    };
    let parts = match parse_url(uri.as_str()) {
        Some(p) => p,
        None => return None,
    };
    let ghost pv = crate::outside::pairs_view(parts.query_pairs@);
    let mut i: usize = 0;
    assert(pv.subrange(0, pv.len() as int) =~= pv);
    assert(uri_ts_path(*task) == ts_path_of(pv));
    while i < parts.query_pairs.len()
        invariant
            i <= parts.query_pairs@.len(),
            uri_ts_path(*task) == ts_path_of(pv),
            pv == crate::outside::pairs_view(parts.query_pairs@),
            ts_path_of(pv) == ts_path_of(pv.subrange(i as int, pv.len() as int)),
        decreases parts.query_pairs@.len() - i,
    {
        assert(pv.subrange(i as int, pv.len() as int).drop_first() =~= pv.subrange(i + 1, pv.len() as int));
        assert(pv.subrange(i as int, pv.len() as int)[0] == pv[i as int]);
        if str_eq(parts.query_pairs[i].0.as_str(), "ts_path") {
            return Some(parts.query_pairs[i].1.clone());
        }
        i = i + 1;
    }
    None
}

/// `s` with each `//` turned into `/`, left to right without overlap (`str::replace`).
pub open spec fn collapse(s: Seq<char>) -> Seq<char>
    decreases s.len(),
{
    if s.len() < 2 {
        s
    } else if s[0] == '/' && s[1] == '/' {
        seq!['/'] + collapse(s.subrange(2, s.len() as int))
    } else {
        seq![s[0]] + collapse(s.drop_first())
    }
}

fn collapse_str(s: &str) -> (r: String)
    ensures
        r@ == collapse(s@),
{
    let v = chars_of(s);
    let mut r = String::new();
    let mut i: usize = 0;
    assert(v@.subrange(0, v@.len() as int) =~= v@);
    while i < v.len()
        invariant
            i <= v@.len(),
            collapse(v@) == r@ + collapse(v@.subrange(i as int, v@.len() as int)),
        decreases v@.len() - i,
    {
        let ghost rest = v@.subrange(i as int, v@.len() as int);
        if i + 1 < v.len() && v[i] == '/' && v[i + 1] == '/' {
            push_char(&mut r, '/');
            assert(rest.subrange(2, rest.len() as int) =~= v@.subrange(i + 2, v@.len() as int));
            i = i + 2;
        } else {
            push_char(&mut r, v[i]);
            assert(rest.drop_first() =~= v@.subrange(i + 1, v@.len() as int));
            i = i + 1;
        }
    }
    assert(v@.subrange(i as int, v@.len() as int) =~= Seq::<char>::empty());
    r
}

/// The part of the task folder `dn` below the sync folder `local`, both with `/` separators:
/// when `dn` starts with `local` ignoring case, what follows `local`'s byte length in `dn`;
/// otherwise nothing. `None` where that byte length falls inside a char or past the end,
/// where slicing the folder would panic.
pub open spec fn dir_relative(dn: Seq<char>, local: Seq<char>) -> Option<Seq<char>> {
    if starts_with(spec_to_lowercase(dn), spec_to_lowercase(local)) {
        let b = encode_utf8(dn);
        let n = (encode_utf8(local).len() as usize) as int;
        if is_char_boundary(b, n) {
            Some(decode_utf8(b.subrange(n, b.len() as int)))
        } else {
            None
        }
    } else {
        Some(Seq::empty())
    }
}

/// The remote path rebuilt from the relative folder and the file name.
pub open spec fn remote_from_dir(rel: Seq<char>, name: Seq<char>) -> Seq<char> {
    let rp = collapse(rel + seq!['/'] + name);
    if starts_with(rp, seq!['/']) {
        rp
    } else {
        seq!['/'] + rp
    }
}

/// Whether finding the remote path of a task stays clear of the slicing that would panic.
pub open spec fn remote_path_ok(t: Aria2Task, local: Seq<char>, windows: bool) -> bool {
    match (task_name(t, windows), uri_ts_path(t), t.dir) {
        (Some(_), None, Some(d)) => dir_relative(slashes(d@), local) is Some,
        _ => true,
    }
}

/// The remote path of a task: none without a file name; else the `ts_path` of its first URI;
/// else rebuilt from its folder below the sync folder `local` and its file name; else
/// `/.../<name>`.
pub open spec fn task_remote(t: Aria2Task, local: Seq<char>, windows: bool) -> Option<Seq<char>> {
    match task_name(t, windows) {
        None => None,
        Some(name) => match uri_ts_path(t) {
            Some(p) => Some(p),
            None => match t.dir {
                Some(d) => Some(remote_from_dir(dir_relative(slashes(d@), local)->0, name)),
                None => Some("/.../"@ + name),
            },
        },
    }
}

fn dir_relative_exec(dn: &str, local: &str) -> (r: String)
    requires
        dir_relative(dn@, local@) is Some,
    ensures
        dir_relative(dn@, local@) == Some(r@),
{
    let dl = to_lowercase(dn);
    let ll = to_lowercase(local);
    let dlv = chars_of(dl.as_str());
    let llv = chars_of(ll.as_str());
    if starts_with_exec(&dlv, &llv) {
        let n = local.len();
        assert(dn.is_char_boundary(n));
        let (_head, rest) = dn.split_at(n);
        proof {
            encode_utf8_decode_utf8(rest@);
        }
        rest.to_owned()
    } else {
        String::new()
    }
}

pub fn task_remote_path(task: &Aria2Task, local_path_normalized: &str, windows: bool) -> (r: Option<String>)
    requires
        remote_path_ok(*task, local_path_normalized@, windows),
    ensures
        opt_str_view(r) == task_remote(*task, local_path_normalized@, windows),
{
    let file_name = match task_file_name(task, windows) {
        Some(n) => n,
        None => return None,
    };
    if let Some(p) = uri_ts_path_exec(task) {
        return Some(p);
    }
    match &task.dir {
        Some(dir) => {
            let dn = slashes_str(dir.as_str());
            let rel = dir_relative_exec(dn.as_str(), local_path_normalized);
            let joined = concat3(rel.as_str(), "/", file_name.as_str());
            proof {
                reveal_strlit("/");
            }
            assert(joined@ == rel@ + seq!['/'] + file_name@);
            assert(task_name(*task, windows) == Some(file_name@));
            assert(uri_ts_path(*task) is None);
            assert(dir_relative(slashes(dir@), local_path_normalized@) == Some(rel@));
            let rp = collapse_str(joined.as_str());
            let rpv = chars_of(rp.as_str());
            let slash: Vec<char> = vec!['/'];
            assert(slash@ =~= seq!['/']);
            if starts_with_exec(&rpv, &slash) {
                Some(rp)
            } else {
                Some(concat2("/", rp.as_str()))
            }
        },
        None => Some(concat2("/.../", file_name.as_str())),
    }
}

/// Whether the task's folder can be cut at the sync folder's byte length, which finding its
/// remote path needs.
pub fn remote_path_is_safe(task: &Aria2Task, local_path_normalized: &str, windows: bool) -> (r: bool)
    ensures
        r == remote_path_ok(*task, local_path_normalized@, windows),
{
    if task_file_name(task, windows).is_none() {
        return true;
    }
    if uri_ts_path_exec(task).is_some() {
        return true;
    }
    match &task.dir {
        Some(dir) => {
            let dn = slashes_str(dir.as_str());
            let dl = to_lowercase(dn.as_str());
            let ll = to_lowercase(local_path_normalized);
            let dlv = chars_of(dl.as_str());
            let llv = chars_of(ll.as_str());
            if starts_with_exec(&dlv, &llv) {
                dn.as_str().is_char_boundary(local_path_normalized.len())
            } else {
                true
            }
        },
        None => true,
    }
}


/// The status that the panel shows for an aria2 status.
pub open spec fn status_label(raw: Seq<char>) -> Seq<char> {
    if raw == "active"@ {
        "Downloading"@
    } else if raw == "waiting"@ || raw == "paused"@ {
        "Queued"@
    } else if raw == "error"@ {
        "Failed"@
    } else if raw == "complete"@ {
        "Completed"@
    } else if raw == "removed"@ {
        "Cancelled"@
    } else {
        "Queued"@
    }
}

pub fn status_label_exec(raw: &str) -> (r: String)
    ensures
        r@ == status_label(raw@),
{
    let s = if str_eq(raw, "active") {
        "Downloading"
    } else if str_eq(raw, "waiting") || str_eq(raw, "paused") {
        "Queued"
    } else if str_eq(raw, "error") {
        "Failed"
    } else if str_eq(raw, "complete") {
        "Completed"
    } else if str_eq(raw, "removed") {
        "Cancelled"
    } else {
        "Queued"
    };
    s.to_owned()
}

pub open spec fn opt_or(o: Option<String>, d: Seq<char>) -> Seq<char> {
    match o {
        Some(s) => s@,
        None => d,
    }
}

/// A number field of a task: its value where it parses as a `u64`, else 0.
pub open spec fn count_field(o: Option<String>) -> u64 {
    match parse_u64(opt_or(o, "0"@)) {
        Some(n) => n,
        None => 0,
    }
}

fn count_field_exec(o: &Option<String>) -> (r: u64)
    ensures
        r == count_field(*o),
{
    let text = match o {
        Some(s) => s.clone(),
        None => "0".to_owned(),
    };
    match parse_u64_str(text.as_str()) {
        Some(n) => n,
        None => 0,
    }
}

fn opt_or_empty(o: &Option<String>) -> (r: String)
    ensures
        r@ == opt_or(*o, Seq::empty()),
{
    match o {
        Some(s) => s.clone(),
        None => String::new(),
    }
}

fn opt_or_exec(o: &Option<String>, d: &str) -> (r: String)
    ensures
        r@ == opt_or(*o, d@),
{
    match o {
        Some(s) => s.clone(),
        None => d.to_owned(),
    }
}

/// The paths of all files of a task, empty ones left out.
pub open spec fn task_paths(t: Aria2Task) -> Seq<Seq<char>> {
    match t.files {
        Some(fs) => file_paths(fs@),
        None => Seq::empty(),
    }
}

pub open spec fn file_paths(fs: Seq<Aria2File>) -> Seq<Seq<char>>
    decreases fs.len(),
{
    if fs.len() == 0 {
        Seq::empty()
    } else {
        file_paths(fs.drop_last()) + match fs.last().path {
            Some(p) => if p@.len() > 0 {
                seq![p@]
            } else {
                Seq::<Seq<char>>::empty()
            },
            None => Seq::<Seq<char>>::empty(),
        }
    }
}

pub open spec fn strings_view(v: Seq<String>) -> Seq<Seq<char>> {
    v.map_values(|s: String| s@)
}

pub fn collect_task_file_paths(task: &Aria2Task) -> (r: Vec<String>)
    ensures
        strings_view(r@) == task_paths(*task),
{
    let mut r: Vec<String> = Vec::new();
    match &task.files {
        Some(fs) => {
            let mut i: usize = 0;
            while i < fs.len()
                invariant
                    i <= fs@.len(),
                    strings_view(r@) == file_paths(fs@.subrange(0, i as int)),
                decreases fs@.len() - i,
            {
                let ghost before = r@;
                match &fs[i].path {
                    Some(p) => {
                        if !p.as_str().is_empty() {
                            r.push(p.clone());
                        }
                    },
                    None => {},
                }
                i = i + 1;
                assert(fs@.subrange(0, i as int).drop_last() =~= fs@.subrange(0, i - 1));
                assert(strings_view(r@) =~= file_paths(fs@.subrange(0, i as int)));
            }
            assert(fs@.subrange(0, fs@.len() as int) =~= fs@);
        },
        None => {
            assert(strings_view(r@) =~= Seq::<Seq<char>>::empty());
        },
    }
    r
}

/// Whether a task has not finished: its status is not `complete`.
pub open spec fn is_incomplete(t: Aria2Task) -> bool {
    opt_or(t.status, Seq::empty()) != "complete"@
}

/// The file paths of the tasks that have not finished, task by task.
pub open spec fn incomplete_paths(ts: Seq<Aria2Task>) -> Seq<Seq<char>>
    decreases ts.len(),
{
    if ts.len() == 0 {
        Seq::empty()
    } else {
        incomplete_paths(ts.drop_last()) + if is_incomplete(ts.last()) {
            task_paths(ts.last())
        } else {
            Seq::<Seq<char>>::empty()
        }
    }
}

pub fn collect_incomplete_task_file_paths(tasks: &Vec<Aria2Task>) -> (r: Vec<String>)
    ensures
        strings_view(r@) == incomplete_paths(tasks@),
{
    let mut r: Vec<String> = Vec::new();
    let mut i: usize = 0;
    while i < tasks.len()
        invariant
            i <= tasks@.len(),
            strings_view(r@) == incomplete_paths(tasks@.subrange(0, i as int)),
        decreases tasks@.len() - i,
    {
        let ghost before = strings_view(r@);
        let status = opt_or_empty(&tasks[i].status);
        if !str_eq(status.as_str(), "complete") {
            let mut ps = collect_task_file_paths(&tasks[i]);
            r.append(&mut ps);
            assert(strings_view(r@) =~= before + task_paths(tasks@[i as int]));
        } else {
            assert(strings_view(r@) =~= before + Seq::<Seq<char>>::empty());
        }
        i = i + 1;
        assert(tasks@.subrange(0, i as int).drop_last() =~= tasks@.subrange(0, i - 1));
    }
    assert(tasks@.subrange(0, tasks@.len() as int) =~= tasks@);
    r
}

/// One task as the download list shows it (its speed aside).
pub struct TaskSummary {
    pub id: String,
    pub remote_path: String,
    pub file_name: String,
    pub total_size: u64,
    pub downloaded: u64,
    pub status: String,
    pub retry_count: usize,
    pub max_retries: usize,
    /// The files to clean up now: those of a failed task.
    pub cleanup: Vec<String>,
}

/// What the download list shows of a task: its gid (empty when missing), its remote path
/// and file name (`Unknown` when there is none), its sizes (0 when missing or not a number),
/// its status label, no retries out of 3; a failed task's files are to be cleaned up.
pub open spec fn summary_ok(s: TaskSummary, t: Aria2Task, local: Seq<char>, windows: bool) -> bool {
    let raw = opt_or(t.status, "unknown"@);
    &&& s.id@ == opt_or(t.gid, Seq::empty())
    &&& s.remote_path@ == match task_remote(t, local, windows) {
        Some(p) => p,
        None => "Unknown"@,
    }
    &&& s.file_name@ == match task_name(t, windows) {
        Some(n) => n,
        None => "Unknown"@,
    }
    &&& s.total_size == count_field(t.total_length)
    &&& s.downloaded == count_field(t.completed_length)
    &&& s.status@ == status_label(raw)
    &&& s.retry_count == 0
    &&& s.max_retries == 3
    &&& strings_view(s.cleanup@) == if raw == "error"@ {
        task_paths(t)
    } else {
        Seq::empty()
    }
}

pub fn summarize_task(task: &Aria2Task, local_path_normalized: &str, windows: bool) -> (r: TaskSummary)
    requires
        remote_path_ok(*task, local_path_normalized@, windows),
    ensures
        summary_ok(r, *task, local_path_normalized@, windows),
{
    let id = opt_or_empty(&task.gid);
    let raw = opt_or_exec(&task.status, "unknown");
    let remote_path = match task_remote_path(task, local_path_normalized, windows) {
        Some(p) => p,
        None => "Unknown".to_owned(),
    };
    let file_name = match task_file_name(task, windows) {
        Some(n) => n,
        None => "Unknown".to_owned(),
    };
    let cleanup = if str_eq(raw.as_str(), "error") {
        collect_task_file_paths(task)
    } else {
        let v: Vec<String> = Vec::new();
        assert(strings_view(v@) =~= Seq::<Seq<char>>::empty());
        v
    };
    TaskSummary {
        id,
        remote_path,
        file_name,
        total_size: count_field_exec(&task.total_length),
        downloaded: count_field_exec(&task.completed_length),
        status: status_label_exec(raw.as_str()),
        retry_count: 0,
        max_retries: 3,
        cleanup,
    }
}

/// The gids of the failed tasks that have one.
pub open spec fn failed_gids(ts: Seq<Aria2Task>) -> Seq<Seq<char>>
    decreases ts.len(),
{
    if ts.len() == 0 {
        Seq::empty()
    } else {
        failed_gids(ts.drop_last()) + match ts.last().gid {
            Some(g) => if opt_or(ts.last().status, Seq::empty()) == "error"@ {
                seq![g@]
            } else {
                Seq::<Seq<char>>::empty()
            },
            None => Seq::<Seq<char>>::empty(),
        }
    }
}

/// Whether aria2 still holds a task as running or queued.
pub open spec fn is_running(t: Aria2Task) -> bool {
    let s = opt_or(t.status, Seq::empty());
    s == "active"@ || s == "waiting"@ || s == "paused"@
}

/// The gids of the running or queued tasks that have one.
pub open spec fn running_gids(ts: Seq<Aria2Task>) -> Seq<Seq<char>>
    decreases ts.len(),
{
    if ts.len() == 0 {
        Seq::empty()
    } else {
        running_gids(ts.drop_last()) + match ts.last().gid {
            Some(g) => if is_running(ts.last()) {
                seq![g@]
            } else {
                Seq::<Seq<char>>::empty()
            },
            None => Seq::<Seq<char>>::empty(),
        }
    }
}

fn is_running_exec(t: &Aria2Task) -> (r: bool)
    ensures
        r == is_running(*t),
{
    let s = opt_or_empty(&t.status);
    str_eq(s.as_str(), "active") || str_eq(s.as_str(), "waiting") || str_eq(s.as_str(), "paused")
}

/// The gids whose results `clear_failed` removes.
pub fn failed_task_gids(tasks: &Vec<Aria2Task>) -> (r: Vec<String>)
    ensures
        strings_view(r@) == failed_gids(tasks@),
{
    let mut r: Vec<String> = Vec::new();
    let mut i: usize = 0;
    while i < tasks.len()
        invariant
            i <= tasks@.len(),
            strings_view(r@) == failed_gids(tasks@.subrange(0, i as int)),
        decreases tasks@.len() - i,
    {
        let ghost before = strings_view(r@);
        match &tasks[i].gid {
            Some(g) => {
                let s = opt_or_empty(&tasks[i].status);
                if str_eq(s.as_str(), "error") {
                    r.push(g.clone());
                }
            },
            None => {},
        }
        i = i + 1;
        assert(tasks@.subrange(0, i as int).drop_last() =~= tasks@.subrange(0, i - 1));
        assert(strings_view(r@) =~= failed_gids(tasks@.subrange(0, i as int)));
    }
    assert(tasks@.subrange(0, tasks@.len() as int) =~= tasks@);
    r
}

/// The gids that `clear_all` force-removes.
pub fn running_task_gids(tasks: &Vec<Aria2Task>) -> (r: Vec<String>)
    ensures
        strings_view(r@) == running_gids(tasks@),
{
    let mut r: Vec<String> = Vec::new();
    let mut i: usize = 0;
    while i < tasks.len()
        invariant
            i <= tasks@.len(),
            strings_view(r@) == running_gids(tasks@.subrange(0, i as int)),
        decreases tasks@.len() - i,
    {
        let ghost before = strings_view(r@);
        match &tasks[i].gid {
            Some(g) => {
                if is_running_exec(&tasks[i]) {
                    r.push(g.clone());
                }
            },
            None => {},
        }
        i = i + 1;
        assert(tasks@.subrange(0, i as int).drop_last() =~= tasks@.subrange(0, i - 1));
        assert(strings_view(r@) =~= running_gids(tasks@.subrange(0, i as int)));
    }
    assert(tasks@.subrange(0, tasks@.len() as int) =~= tasks@);
    r
}

/// What removing a task from the list does once aria2 has reported it.
pub struct RemovePlan {
    /// Stop the task first.
    pub force_remove: bool,
    /// The files to clean up afterwards.
    pub cleanup: Vec<String>,
}

/// A running or queued task is stopped and its files cleaned up; a finished one keeps its
/// file; any other (failed, removed) has its files cleaned up. Its result is removed in
/// every case.
pub fn plan_remove(task: &Aria2Task) -> (r: RemovePlan)
    ensures
        r.force_remove == is_running(*task),
        strings_view(r.cleanup@) == if opt_or(task.status, Seq::empty()) == "complete"@ {
            Seq::empty()
        } else {
            task_paths(*task)
        },
{
    let s = opt_or_empty(&task.status);
    let running = is_running_exec(task);
    if str_eq(s.as_str(), "complete") {
        proof {
            reveal_strlit("complete");
            reveal_strlit("active");
            reveal_strlit("waiting");
            reveal_strlit("paused");
            assert("complete"@.len() == 8);
            assert("active"@.len() == 6 && "waiting"@.len() == 7 && "paused"@.len() == 6);
            assert(!is_running(*task));
        }
        let v: Vec<String> = Vec::new();
        assert(strings_view(v@) =~= Seq::<Seq<char>>::empty());
        RemovePlan { force_remove: false, cleanup: v }
    } else {
        RemovePlan { force_remove: running, cleanup: collect_task_file_paths(task) }
    }
}

/// The download address of a remote file: the server's file download endpoint with the
/// remote path as the `ts_path` query parameter.
pub open spec fn download_url(base: Seq<char>, id: Seq<char>, remote_path: Seq<char>) -> Result<Seq<char>, Seq<char>> {
    match spec_url_with_pair(
        strip_trailing(base, '/') + "/api/files/"@ + id + "/download"@,
        "ts_path"@,
        remote_path,
    ) {
        Ok(u) => Ok(u),
        Err(e) => Err("Build download url failed: "@ + e),
    }
}

pub fn build_download_url(base_url: &str, remote_id: &str, remote_path: &str) -> (r: Result<String, String>)
    ensures
        crate::config::res_view(r) == download_url(base_url@, remote_id@, remote_path@),
{
    let base = strip_trailing_str(base_url, '/');
    let a = concat3(base.as_str(), "/api/files/", remote_id);
    let full = concat2(a.as_str(), "/download");
    match url_with_pair(full.as_str(), "ts_path", remote_path) {
        Ok(u) => Ok(u),
        Err(e) => Err(concat2("Build download url failed: ", e.as_str())),
    }
}

/// What a retry re-queues: the source address, the file name and the folder.
pub struct RetryPlan {
    pub url: String,
    pub file_name: String,
    pub out_dir: String,
}

/// Whether aria2 can take a task again: it failed or was removed.
pub open spec fn is_retryable(t: Aria2Task) -> bool {
    let s = opt_or(t.status, Seq::empty());
    s == "error"@ || s == "removed"@
}

/// The address a retry downloads from: the task's own first URI; else the download address
/// of the remote file at the task's remote path, looked up in the remote tree, when it has an
/// id and the address can be built.
pub open spec fn retry_source(t: Aria2Task, local: Seq<char>, base: Seq<char>, remote: Option<Seq<crate::tree::NodeView>>, windows: bool) -> Option<Seq<char>> {
    match first_uri(t) {
        Some(u) => Some(u),
        None => match task_remote(t, local, windows) {
            Some(rp) => match remote {
                Some(nodes) => match find_spec(nodes, rp) {
                    Some(n) => match n.remote_id {
                        Some(id) => match download_url(base, id, rp) {
                            Ok(u) => Some(u),
                            Err(_) => None,
                        },
                        None => None,
                    },
                    None => None,
                },
                None => None,
            },
            None => None,
        },
    }
}

/// Whether planning a retry reaches the remote path of the task.
pub open spec fn retry_needs_remote_path(t: Aria2Task, windows: bool) -> bool {
    is_retryable(t) && task_name(t, windows) is Some && opt_or(t.dir, Seq::empty()).len() > 0 && first_uri(t) is None
}

/// A retry: only of a failed or removed task, with its file name and folder, from
/// [`retry_source`]; otherwise the message that says what is missing.
pub open spec fn retry_spec(t: Aria2Task, local: Seq<char>, base: Seq<char>, remote: Option<Seq<crate::tree::NodeView>>, windows: bool) -> Result<(Seq<char>, Seq<char>, Seq<char>), Seq<char>> {
    if !is_retryable(t) {
        Err("Task is not retryable"@)
    } else if task_name(t, windows) is None {
        Err("Missing original file name"@)
    } else if opt_or(t.dir, Seq::empty()).len() == 0 {
        Err("Missing original download directory"@)
    } else {
        match retry_source(t, local, base, remote, windows) {
            Some(u) => Ok((u, task_name(t, windows)->0, opt_or(t.dir, Seq::empty()))),
            None => Err("Missing retry source information"@),
        }
    }
}

pub fn plan_retry(
    task: &Aria2Task,
    local_path_normalized: &str,
    teldrive_url: &str,
    remote_nodes: Option<&Vec<FileNode>>,
    windows: bool,
) -> (r: Result<RetryPlan, String>)
    requires
        retry_needs_remote_path(*task, windows) ==> remote_path_ok(*task, local_path_normalized@, windows),
    ensures
        match retry_spec(*task, local_path_normalized@, teldrive_url@, match remote_nodes {
            Some(n) => Some(nodes_view(n@)),
            None => None,
        }, windows) {
            Ok(p) => r matches Ok(q) && q.url@ == p.0 && q.file_name@ == p.1 && q.out_dir@ == p.2,
            Err(m) => r matches Err(e) && e@ == m,
        },
{
    let s = opt_or_empty(&task.status);
    if !(str_eq(s.as_str(), "error") || str_eq(s.as_str(), "removed")) {
        return Err("Task is not retryable".to_owned());
    }
    let file_name = match task_file_name(task, windows) {
        Some(n) => n,
        None => return Err("Missing original file name".to_owned()),
    };
    let out_dir = opt_or_empty(&task.dir);
    if out_dir.as_str().is_empty() {
        return Err("Missing original download directory".to_owned());
    }
    let mut retry_url = extract_retry_url(task);
    if retry_url.is_none() {
        if let Some(remote_path) = task_remote_path(task, local_path_normalized, windows) {
            if let Some(nodes) = remote_nodes {
                if let Some(remote_id) = find_remote_id_by_path(nodes.as_slice(), remote_path.as_str()) {
                    retry_url = match build_download_url(teldrive_url, remote_id.as_str(), remote_path.as_str()) {
                        Ok(u) => Some(u),
                        Err(_) => None,
                    };
                }
            }
        }
    }
    match retry_url {
        Some(url) => Ok(RetryPlan { url, file_name, out_dir }),
        None => Err("Missing retry source information".to_owned()),
    }
}

/// The answer to a retry whose task could not be loaded.
pub fn retry_load_failed_message(err: &str) -> (r: String)
    ensures
        r@ == "Failed to load task details: "@ + err@,
{
    concat2("Failed to load task details: ", err)
}

/// The answer once aria2 took (or refused) the re-queued task.
pub fn retry_outcome_message(added: &Result<String, String>) -> (r: String)
    ensures
        r@ == match added {
            Ok(_) => "Task requeued"@,
            Err(e) => "Retry failed: "@ + e@,
        },
{
    match added {
        Ok(_) => "Task requeued".to_owned(),
        Err(e) => concat2("Retry failed: ", e.as_str()),
    }
}

/// A request that names one aria2 task.
pub struct TaskAction {
    pub task_id: String,
}


/// The download list's entry for a task, or `None` for a task whose folder would have to be
/// cut inside a char to rebuild its remote path.
pub fn summarize_task_checked(task: &Aria2Task, local_path_normalized: &str, windows: bool) -> (r: Option<TaskSummary>)
    ensures
        remote_path_ok(*task, local_path_normalized@, windows) <==> r is Some,
        r matches Some(s) ==> summary_ok(s, *task, local_path_normalized@, windows),
{
    if remote_path_is_safe(task, local_path_normalized, windows) {
        Some(summarize_task(task, local_path_normalized, windows))
    } else {
        None
    }
}

/// The retry of a task, or `None` for a task whose folder would have to be cut inside a char
/// to rebuild its remote path when that path is needed.
pub fn plan_retry_checked(
    task: &Aria2Task,
    local_path_normalized: &str,
    teldrive_url: &str,
    remote_nodes: Option<&Vec<FileNode>>,
    windows: bool,
) -> (r: Option<Result<RetryPlan, String>>)
    ensures
        r is None <==> (retry_needs_remote_path(*task, windows) && !remote_path_ok(*task, local_path_normalized@, windows)),
        r matches Some(res) ==> match retry_spec(*task, local_path_normalized@, teldrive_url@, match remote_nodes {
            Some(n) => Some(nodes_view(n@)),
            None => None,
        }, windows) {
            Ok(p) => res matches Ok(q) && q.url@ == p.0 && q.file_name@ == p.1 && q.out_dir@ == p.2,
            Err(m) => res matches Err(e) && e@ == m,
        },
{
    let s = opt_or_empty(&task.status);
    let retryable = str_eq(s.as_str(), "error") || str_eq(s.as_str(), "removed");
    let named = task_file_name(task, windows).is_some();
    let dir = opt_or_empty(&task.dir);
    let needs_path = retryable && named && !dir.as_str().is_empty() && extract_retry_url(task).is_none();
    if needs_path && !remote_path_is_safe(task, local_path_normalized, windows) {
        None
    } else {
        Some(plan_retry(task, local_path_normalized, teldrive_url, remote_nodes, windows))
    }
}


proof fn lemma_status_literals()
    ensures
        "active"@ != "waiting"@, "active"@ != "paused"@, "active"@ != "error"@,
        "active"@ != "complete"@, "active"@ != "removed"@,
        "waiting"@ != "error"@, "waiting"@ != "complete"@, "waiting"@ != "removed"@,
        "paused"@ != "error"@, "paused"@ != "complete"@, "paused"@ != "removed"@,
        "error"@ != "complete"@, "error"@ != "removed"@, "complete"@ != "removed"@,
        "Downloading"@ != "Queued"@, "Downloading"@ != "Failed"@, "Downloading"@ != "Completed"@,
        "Downloading"@ != "Cancelled"@, "Queued"@ != "Failed"@, "Queued"@ != "Completed"@,
        "Queued"@ != "Cancelled"@, "Failed"@ != "Completed"@, "Failed"@ != "Cancelled"@,
        "Completed"@ != "Cancelled"@,
{
    reveal_strlit("active");
    reveal_strlit("waiting");
    reveal_strlit("paused");
    reveal_strlit("error");
    reveal_strlit("complete");
    reveal_strlit("removed");
    reveal_strlit("Downloading");
    reveal_strlit("Queued");
    reveal_strlit("Failed");
    reveal_strlit("Completed");
    reveal_strlit("Cancelled");
    assert("active"@[0] != "paused"@[0]);
    assert("waiting"@[0] != "removed"@[0]);
    assert("error"@.len() != "active"@.len());
    assert("Queued"@[0] != "Failed"@[0]);
    assert("Completed"@[1] != "Cancelled"@[1]);
    assert("Downloading"@.len() == 11 && "Completed"@.len() == 9 && "Cancelled"@.len() == 9);
    assert("Queued"@.len() == 6 && "Failed"@.len() == 6);
    assert("complete"@.len() == 8 && "removed"@.len() == 7 && "waiting"@.len() == 7);
}

/// Each aria2 status is shown by its own label: `active` as Downloading, `error` as Failed,
/// `complete` as Completed, `removed` as Cancelled, and only those; `waiting` and `paused`
/// as Queued.
pub proof fn each_status_has_its_label(raw: Seq<char>)
    ensures
        (status_label(raw) == "Downloading"@) <==> raw == "active"@,
        (status_label(raw) == "Failed"@) <==> raw == "error"@,
        (status_label(raw) == "Completed"@) <==> raw == "complete"@,
        (status_label(raw) == "Cancelled"@) <==> raw == "removed"@,
        raw == "waiting"@ || raw == "paused"@ ==> status_label(raw) == "Queued"@,
{
    lemma_status_literals();
}

/// The statuses of a task aria2 has not finished with.
pub open spec fn unfinished_status(s: Seq<char>) -> bool {
    s == "active"@ || s == "waiting"@ || s == "paused"@
}

/// A task is force-removed before its result is removed exactly when aria2 has not finished
/// with it: active, waiting or paused; never when it is complete, failed or removed.
pub proof fn unfinished_tasks_are_running(t: Aria2Task)
    ensures
        opt_or(t.status, Seq::empty()) == "active"@ ==> is_running(t),
        opt_or(t.status, Seq::empty()) == "waiting"@ ==> is_running(t),
        opt_or(t.status, Seq::empty()) == "paused"@ ==> is_running(t),
        opt_or(t.status, Seq::empty()) == "complete"@ ==> !is_running(t),
        opt_or(t.status, Seq::empty()) == "error"@ ==> !is_running(t),
        opt_or(t.status, Seq::empty()) == "removed"@ ==> !is_running(t),
{
    lemma_status_literals();
}

/// The gids that clearing everything force-removes: the gid of every task that is active,
/// waiting or paused, and no other.
pub proof fn running_gids_are_the_unfinished(ts: Seq<Aria2Task>)
    ensures
        forall|i: int|
            0 <= i < ts.len() && (#[trigger] ts[i]).gid is Some && unfinished_status(opt_or(ts[i].status, Seq::empty()))
                ==> running_gids(ts).contains((ts[i].gid->Some_0)@),
        forall|j: int| 0 <= j < running_gids(ts).len() ==> exists|i: int|
            0 <= i < ts.len() && (#[trigger] ts[i]).gid is Some && (ts[i].gid->Some_0)@ == #[trigger] running_gids(ts)[j]
                && unfinished_status(opt_or(ts[i].status, Seq::empty())),
    decreases ts.len(),
{
    if ts.len() > 0 {
        let init = ts.drop_last();
        running_gids_are_the_unfinished(init);
        let r = running_gids(ts);
        let a = running_gids(init);
        let last = ts.last();
        let tail: Seq<Seq<char>> = match last.gid {
            Some(g) => if is_running(last) { seq![g@] } else { Seq::empty() },
            None => Seq::empty(),
        };
        assert(r == a + tail);
        assert forall|i: int|
            0 <= i < ts.len() && (#[trigger] ts[i]).gid is Some && unfinished_status(opt_or(ts[i].status, Seq::empty()))
                implies r.contains((ts[i].gid->Some_0)@) by {
            let g = (ts[i].gid->Some_0)@;
            if i < ts.len() - 1 {
                assert(init[i] == ts[i]);
                let k = choose|k: int| 0 <= k < a.len() && a[k] == g;
                assert(r[k] == g);
            } else {
                assert(r[a.len() as int] == g);
            }
        }
        assert forall|j: int| 0 <= j < r.len() implies exists|i: int|
            0 <= i < ts.len() && (#[trigger] ts[i]).gid is Some && (ts[i].gid->Some_0)@ == #[trigger] r[j]
                && unfinished_status(opt_or(ts[i].status, Seq::empty())) by {
            if j < a.len() {
                assert(r[j] == a[j]);
                let i = choose|i: int| 0 <= i < init.len() && (#[trigger] init[i]).gid is Some && (init[i].gid->Some_0)@ == a[j]
                    && unfinished_status(opt_or(init[i].status, Seq::empty()));
                assert(ts[i] == init[i]);
            } else {
                assert(ts[ts.len() - 1] == last);
                assert(r[j] == tail[j - a.len()]);
            }
        }
    }
}

} // verus!

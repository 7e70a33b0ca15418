//! Turning a chosen remote file or folder into aria2 download jobs.
use vstd::prelude::*;
use crate::config::AppConfig;
use crate::paths::{cviews, join_slash, join_with_slash, keep_pieces, kept_pieces, path_join_on, path_join_on_exec, pieces_at};
use crate::tasks::{build_download_url, download_url};
use crate::text::chars_of;
use crate::tree::{FileNode, NodeView, copy_node, find_node, find_spec, flat_node, flatten_files, flattened_are_files, nodes_view};

verus! {

/// A request to download what is at a remote path.
pub struct EnqueueRequest {
    pub path: String,
}

/// How many downloads were queued.
pub struct EnqueueResponse {
    pub added_count: usize,
}

/// One file to hand to aria2.
pub struct DownloadJob {
    pub url: String,
    pub file_name: String,
    pub out_dir: String,
    /// The folder has to be created first.
    pub create_dir: bool,
}

/// The nodes of `s` that are not present locally, in order.
pub open spec fn missing_files(s: Seq<NodeView>) -> Seq<NodeView>
    decreases s.len(),
{
    if s.len() == 0 {
        Seq::empty()
    } else {
        let rest = missing_files(s.drop_last());
        if s.last().exists_locally {
            rest
        } else {
            rest.push(s.last())
        }
    }
}

proof fn missing_files_from(s: Seq<NodeView>)
    ensures
        forall|i: int| 0 <= i < missing_files(s).len() ==> exists|j: int| 0 <= j < s.len() && s[j] == #[trigger] missing_files(s)[i],
        forall|i: int| 0 <= i < missing_files(s).len() ==> !(#[trigger] missing_files(s)[i]).exists_locally,
    decreases s.len(),
{
    if s.len() > 0 {
        missing_files_from(s.drop_last());
        let rest = missing_files(s.drop_last());
        assert forall|i: int| 0 <= i < missing_files(s).len() implies exists|j: int| 0 <= j < s.len() && s[j] == #[trigger] missing_files(s)[i] by {
            if i < rest.len() {
                assert(missing_files(s)[i] == rest[i]);
                let j = choose|j: int| 0 <= j < s.drop_last().len() && s.drop_last()[j] == rest[i];
                assert(s[j] == missing_files(s)[i]);
            } else {
                assert(s[s.len() - 1] == missing_files(s)[i]);
            }
        }
    }
}

/// The files that a request for `path` asks for: the files below a folder that are not yet
/// present locally, or the single file itself; an error when there is no tree yet, nothing at
/// the path, or the file is already present.
pub open spec fn enqueue_candidates(remote: Option<Seq<NodeView>>, path: Seq<char>) -> Result<Seq<NodeView>, Seq<char>> {
    match remote {
        None => Err("请先刷新文件树"@),
        Some(nodes) => match find_spec(nodes, path) {
            None => Err("未找到指定路径"@),
            Some(n) => if n.is_dir {
                Ok(missing_files(flat_node(n)))
            } else if n.exists_locally {
                Err("文件已存在本地"@)
            } else {
                Ok(seq![n])
            },
        },
    }
}

/// Only files that are missing locally are ever asked for.
pub proof fn candidates_are_missing_files(remote: Option<Seq<NodeView>>, path: Seq<char>)
    ensures
        enqueue_candidates(remote, path) matches Ok(fs) ==> forall|i: int|
            0 <= i < fs.len() ==> !(#[trigger] fs[i]).is_dir && !fs[i].exists_locally,
{
    if let Some(nodes) = remote {
        if let Some(n) = find_spec(nodes, path) {
            if n.is_dir {
                flattened_are_files(n);
                let all = flat_node(n);
                missing_files_from(all);
                let fs = missing_files(all);
                assert forall|i: int| 0 <= i < fs.len() implies !(#[trigger] fs[i]).is_dir && !fs[i].exists_locally by {
                    let j = choose|j: int| 0 <= j < all.len() && all[j] == fs[i];
                    assert(!all[j].is_dir);
                }
            }
        }
    }
}

/// The folder below the sync folder that a remote file goes into: its path's non-empty
/// pieces without the last, joined with `/`.
pub open spec fn relative_dir(remote_path: Seq<char>) -> Seq<char> {
    let parts = keep_pieces(pieces_at(remote_path, 0), false);
    if parts.len() > 1 {
        join_slash(parts.drop_last())
    } else {
        Seq::empty()
    }
}

/// Where aria2 saves a remote file: the sync folder, or the file's folder below it (to be
/// created first).
pub open spec fn job_out_dir(local: Seq<char>, remote_path: Seq<char>, windows: bool) -> (Seq<char>, bool) {
    let rel = relative_dir(remote_path);
    if rel.len() == 0 {
        (local, false)
    } else {
        (path_join_on(windows, local, rel), true)
    }
}

pub fn download_dir_for(local_path: &str, remote_path: &str, windows: bool) -> (r: (String, bool))
    ensures
        r.0@ == job_out_dir(local_path@, remote_path@, windows).0,
        r.1 == job_out_dir(local_path@, remote_path@, windows).1,
{
    let v = chars_of(remote_path);
    let mut parts = kept_pieces(&v, 0, false);
    let rel = if parts.len() > 1 {
        let ghost pv = cviews(parts@);
        parts.pop();
        assert(cviews(parts@) =~= pv.drop_last());
        join_with_slash(&parts)
    } else {
        String::new()
    };
    if rel.as_str().is_empty() {
        (local_path.to_owned(), false)
    } else {
        (path_join_on_exec(windows, local_path, rel.as_str()), true)
    }
}

/// The jobs for the candidate files, in order: each one with a remote id becomes a job with
/// its download address, its name and its folder; the first address that cannot be built
/// stops the list with that error.
pub open spec fn jobs_spec(fs: Seq<NodeView>, base: Seq<char>, local: Seq<char>, windows: bool) -> (Seq<(Seq<char>, Seq<char>, Seq<char>, bool)>, Option<Seq<char>>)
    decreases fs.len(),
{
    if fs.len() == 0 {
        (Seq::empty(), None)
    } else {
        let f = fs[0];
        match f.remote_id {
            None => jobs_spec(fs.drop_first(), base, local, windows),
            Some(id) => match download_url(base, id, f.path) {
                Err(e) => (Seq::empty(), Some(e)),
                Ok(u) => {
                    let d = job_out_dir(local, f.path, windows);
                    let rest = jobs_spec(fs.drop_first(), base, local, windows);
                    (seq![(u, f.name, d.0, d.1)] + rest.0, rest.1)
                },
            },
        }
    }
}

pub open spec fn jobs_view(v: Seq<DownloadJob>) -> Seq<(Seq<char>, Seq<char>, Seq<char>, bool)> {
    v.map_values(|j: DownloadJob| (j.url@, j.file_name@, j.out_dir@, j.create_dir))
}

/// What a download request turns into: how many files it asks for, the jobs to run in
/// order, and the error that stops it after them, if any.
pub struct EnqueuePlan {
    pub file_count: usize,
    pub jobs: Vec<DownloadJob>,
    pub stop: Option<String>,
}

fn candidates(remote: Option<&Vec<FileNode>>, path: &str) -> (r: Result<Vec<FileNode>, String>)
    ensures
        match enqueue_candidates(match remote { Some(n) => Some(nodes_view(n@)), None => None }, path@) {
            Ok(fs) => r matches Ok(v) && nodes_view(v@) == fs,
            Err(e) => r matches Err(m) && m@ == e,
        },
{
    let nodes = match remote {
        Some(n) => n,
        None => return Err("请先刷新文件树".to_owned()),
    };
    let target = match find_node(nodes.as_slice(), path) {
        Some(t) => t,
        None => return Err("未找到指定路径".to_owned()),
    };
    if target.is_dir {
        let all = flatten_files(nodes.as_slice(), path);
        let ghost av = nodes_view(all@);
        let mut out: Vec<FileNode> = Vec::new();
        let mut i: usize = 0;
        while i < all.len()
            invariant
                i <= all@.len(),
                av == nodes_view(all@),
                nodes_view(out@) == missing_files(av.subrange(0, i as int)),
            decreases all@.len() - i,
        {
            let ghost before = nodes_view(out@);
            if !all[i].exists_locally {
                out.push(copy_node(&all[i]));
                assert(nodes_view(out@) =~= before.push(av[i as int]));
            } else {
                assert(nodes_view(out@) =~= before);
            }
            proof {
                let s = av.subrange(0, i + 1);
                assert(s.drop_last() =~= av.subrange(0, i as int));
                assert(s.last() == av[i as int]);
            }
            i = i + 1;
        }
        assert(av.subrange(0, all@.len() as int) =~= av);
        Ok(out)
    } else {
        if target.exists_locally {
            return Err("文件已存在本地".to_owned());
        }
        let mut v: Vec<FileNode> = Vec::new();
        v.push(copy_node(target));
        assert(nodes_view(v@) =~= seq![target@]);
        Ok(v)
    }
}

/// Plans a download request against the remote tree and the settings.
pub fn plan_enqueue(remote: Option<&Vec<FileNode>>, path: &str, config: &AppConfig, windows: bool) -> (r: Result<EnqueuePlan, String>)
    ensures
        match enqueue_candidates(match remote { Some(n) => Some(nodes_view(n@)), None => None }, path@) {
            Err(e) => r matches Err(m) && m@ == e,
            Ok(fs) => r matches Ok(p) && p.file_count == fs.len() && jobs_view(p.jobs@) == jobs_spec(fs, config.teldrive_url@, config.local_path@, windows).0
                && crate::outside::opt_str_view(p.stop) == jobs_spec(fs, config.teldrive_url@, config.local_path@, windows).1,
        },
{
    let files = candidates(remote, path)?;
    let ghost fs = nodes_view(files@);
    let mut jobs: Vec<DownloadJob> = Vec::new();
    let mut i: usize = 0;
    assert(fs.subrange(0, fs.len() as int) =~= fs);
    while i < files.len()
        invariant
            i <= files@.len(),
            fs == nodes_view(files@),
            enqueue_candidates(match remote { Some(n) => Some(nodes_view(n@)), None => None }, path@) == Ok::<Seq<NodeView>, Seq<char>>(fs),
            jobs_spec(fs, config.teldrive_url@, config.local_path@, windows) == ({
                let rest = jobs_spec(fs.subrange(i as int, fs.len() as int), config.teldrive_url@, config.local_path@, windows);
                (jobs_view(jobs@) + rest.0, rest.1)
            }),
        decreases files@.len() - i,
    {
        let ghost sub = fs.subrange(i as int, fs.len() as int);
        assert(sub[0] == fs[i as int]);
        assert(sub.drop_first() =~= fs.subrange(i + 1, fs.len() as int));
        let f = &files[i];
        match &f.remote_id {
            None => {},
            Some(id) => {
                match build_download_url(config.teldrive_url.as_str(), id.as_str(), f.path.as_str()) {
                    Err(e) => {
                        assert(fs[i as int].remote_id == Some(id@));
                        assert(download_url(config.teldrive_url@, id@, f.path@) == Err::<Seq<char>, Seq<char>>(e@));
                        assert(jobs_spec(sub, config.teldrive_url@, config.local_path@, windows) == (Seq::<(Seq<char>, Seq<char>, Seq<char>, bool)>::empty(), Some(e@)));
                        assert(jobs_view(jobs@) + Seq::empty() =~= jobs_view(jobs@));
                        return Ok(EnqueuePlan { file_count: files.len(), jobs, stop: Some(e) });
                    },
                    Ok(url) => {
                        let (out_dir, create_dir) = download_dir_for(config.local_path.as_str(), f.path.as_str(), windows);
                        let ghost before = jobs_view(jobs@);
                        jobs.push(DownloadJob { url, file_name: f.name.clone(), out_dir, create_dir });
                        assert(jobs_view(jobs@) =~= before.push((jobs@.last().url@, f.name@, jobs@.last().out_dir@, create_dir)));
                        let ghost rest = jobs_spec(fs.subrange(i + 1, fs.len() as int), config.teldrive_url@, config.local_path@, windows);
                        assert(before + (seq![(jobs@.last().url@, f.name@, jobs@.last().out_dir@, create_dir)] + rest.0) =~= jobs_view(jobs@) + rest.0);
                    },
                }
            },
        }
        i = i + 1;
    }
    assert(fs.subrange(i as int, fs.len() as int) =~= Seq::<NodeView>::empty());
    assert(jobs_view(jobs@) + Seq::empty() =~= jobs_view(jobs@));
    Ok(EnqueuePlan { file_count: files.len(), jobs, stop: None })
}

/// The answer once the jobs have run: the number queued, or an error when none was.
pub open spec fn enqueue_verdict(file_count: usize, added: usize) -> Result<usize, Seq<char>> {
    if added == 0 {
        if file_count == 0 {
            Err("该目录下没有需要下载的新文件"@)
        } else {
            Err("Aria2 添加任务失败，请检查服务状态"@)
        }
    } else {
        Ok(added)
    }
}

pub fn enqueue_outcome(file_count: usize, added: usize) -> (r: Result<EnqueueResponse, String>)
    ensures
        match enqueue_verdict(file_count, added) {
            Ok(n) => r matches Ok(resp) && resp.added_count == n,
            Err(e) => r matches Err(m) && m@ == e,
        },
{
    if added == 0 {
        if file_count == 0 {
            Err("该目录下没有需要下载的新文件".to_owned())
        } else {
            Err("Aria2 添加任务失败，请检查服务状态".to_owned())
        }
    } else {
        Ok(EnqueueResponse { added_count: added })
    }
}

} // verus!

//! The file tree shared by the remote listing and the local scan.
use vstd::prelude::*;
use crate::text::{chars_of, starts_with, starts_with_exec};

verus! {

/// One file or folder, as both the remote listing and the local scan give it.
pub struct FileNode {
    pub name: String,
    pub path: String,
    pub is_dir: bool,
    pub size: u64,
    pub remote_id: Option<String>,
    pub mime_type: Option<String>,
    pub exists_locally: bool,
    pub children: Vec<FileNode>,
}

/// The mathematical value of a [`FileNode`].
pub struct NodeView {
    pub name: Seq<char>,
    pub path: Seq<char>,
    pub is_dir: bool,
    pub size: u64,
    pub remote_id: Option<Seq<char>>,
    pub mime_type: Option<Seq<char>>,
    pub exists_locally: bool,
    pub children: Seq<NodeView>,
}

pub open spec fn opt_view(o: Option<String>) -> Option<Seq<char>> {
    match o {
        Some(s) => Some(s@),
        None => None,
    }
}

pub open spec fn node_view(n: FileNode) -> NodeView
    decreases n,
{
    NodeView {
        name: n.name@,
        path: n.path@,
        is_dir: n.is_dir,
        size: n.size,
        remote_id: opt_view(n.remote_id),
        mime_type: opt_view(n.mime_type),
        exists_locally: n.exists_locally,
        children: nodes_view(n.children@),
    }
}

pub open spec fn nodes_view(s: Seq<FileNode>) -> Seq<NodeView>
    decreases s,
{
    Seq::new(s.len(), |i: int| if 0 <= i < s.len() { node_view(s[i]) } else { arbitrary() })
}

/// Every node of `s` and below with `exists_locally` cleared.
pub open spec fn reset_node(v: NodeView) -> NodeView
    decreases v,
{
    NodeView {
        exists_locally: false,
        children: if v.is_dir { reset_nodes(v.children) } else { v.children },
        ..v
    }
}

pub open spec fn reset_nodes(s: Seq<NodeView>) -> Seq<NodeView>
    decreases s,
{
    Seq::new(s.len(), |i: int| if 0 <= i < s.len() { reset_node(s[i]) } else { arbitrary() })
}


impl View for FileNode {
    type V = NodeView;

    open spec fn view(&self) -> NodeView {
        node_view(*self)
    }
}

/// Clears `exists_locally` on every node, descending into folders.
fn reset_exists_locally(nodes: &mut Vec<FileNode>)
    ensures
        nodes_view(final(nodes)@) == reset_nodes(nodes_view(old(nodes)@)),
    decreases old(nodes)@,
{
    let n = nodes.len();
    let mut i: usize = 0;
    while i < n
        invariant
            0 <= i <= n == nodes@.len() == old(nodes)@.len(),
            forall|j: int| 0 <= j < i ==> node_view(#[trigger] nodes@[j]) == reset_node(node_view(old(nodes)@[j])),
            forall|j: int| i <= j < n ==> #[trigger] nodes@[j] == old(nodes)@[j],
        decreases n - i,
    {
        let node = &mut nodes[i];
        node.exists_locally = false;
        if node.is_dir {
            assert(decreases_to!(old(nodes)@ => old(nodes)@[i as int]));
            reset_exists_locally(&mut node.children);
        }
        i = i + 1;
    }
    assert(nodes_view(nodes@) =~= reset_nodes(nodes_view(old(nodes)@)));
}

/// The index of the first node of `s` whose name is `name`.
pub open spec fn first_named(s: Seq<NodeView>, name: Seq<char>) -> Option<int>
    decreases s.len(),
{
    if s.len() == 0 {
        None
    } else {
        match first_named(s.drop_last(), name) {
            Some(i) => Some(i),
            None => if s.last().name == name {
                Some(s.len() - 1)
            } else {
                None
            },
        }
    }
}

pub proof fn lemma_first_named(s: Seq<NodeView>, name: Seq<char>)
    ensures
        match first_named(s, name) {
            Some(i) => 0 <= i < s.len() && s[i].name == name && forall|j: int|
                0 <= j < i ==> s[j].name != name,
            None => forall|j: int| 0 <= j < s.len() ==> s[j].name != name,
        },
    decreases s.len(),
{
    if s.len() > 0 {
        let t = s.drop_last();
        lemma_first_named(t, name);
        assert(forall|j: int| 0 <= j < t.len() ==> t[j] == s[j]);
    }
}

/// A remote node marked against the local nodes of the same folder: a remote folder exists
/// locally when a local folder of that name does (and its entries are marked against that
/// folder's), a remote file when a local file of that name does. Otherwise the node is
/// unmarked, and a remote folder that has no local folder of its name (none of that name, or
/// a file of that name) has its whole subtree cleared.
pub open spec fn mark_node(r: NodeView, local: Seq<NodeView>) -> NodeView
    decreases r,
{
    match first_named(local, r.name) {
        Some(k) => {
            let l = local[k];
            if r.is_dir && l.is_dir {
                NodeView { exists_locally: true, children: mark_nodes(r.children, l.children), ..r }
            } else if !r.is_dir && !l.is_dir {
                NodeView { exists_locally: true, ..r }
            } else if r.is_dir {
                NodeView { exists_locally: false, children: reset_nodes(r.children), ..r }
            } else {
                NodeView { exists_locally: false, ..r }
            }
        },
        None => {
            if r.is_dir {
                NodeView { exists_locally: false, children: reset_nodes(r.children), ..r }
            } else {
                NodeView { exists_locally: false, ..r }
            }
        },
    }
}

pub open spec fn mark_nodes(remote: Seq<NodeView>, local: Seq<NodeView>) -> Seq<NodeView>
    decreases remote,
{
    Seq::new(
        remote.len(),
        |i: int|
            if 0 <= i < remote.len() {
                mark_node(remote[i], local)
            } else {
                arbitrary()
            },
    )
}

/// The index of the first node of `nodes` named `name`.
fn find_by_name(nodes: &[FileNode], name: &String) -> (r: Option<usize>)
    ensures
        match r {
            Some(k) => first_named(nodes_view(nodes@), name@) == Some(k as int),
            None => first_named(nodes_view(nodes@), name@) is None,
        },
{
    let ghost vs = nodes_view(nodes@);
    proof {
        lemma_first_named(vs, name@);
    }
    let mut k: usize = 0;
    while k < nodes.len()
        invariant
            k <= nodes@.len(),
            vs == nodes_view(nodes@),
            forall|j: int| 0 <= j < k ==> vs[j].name != name@,
            match first_named(vs, name@) {
                Some(i) => 0 <= i < vs.len() && vs[i].name == name@ && forall|j: int|
                    0 <= j < i ==> vs[j].name != name@,
                None => forall|j: int| 0 <= j < vs.len() ==> vs[j].name != name@,
            },
        decreases nodes@.len() - k,
    {
        if nodes[k].name == *name {
            assert(vs[k as int].name == name@);
            return Some(k);
        }
        k = k + 1;
    }
    None
}

/// Compares the remote tree with the local one and sets `exists_locally` on every remote
/// node accordingly, descending into folders.
pub fn mark_local_existence(remote_nodes: &mut Vec<FileNode>, local_nodes: &[FileNode])
    ensures
        nodes_view(final(remote_nodes)@) == mark_nodes(
            nodes_view(old(remote_nodes)@),
            nodes_view(local_nodes@),
        ),
    decreases old(remote_nodes)@,
{
    let ghost lv = nodes_view(local_nodes@);
    let n = remote_nodes.len();
    let mut i: usize = 0;
    while i < n
        invariant
            0 <= i <= n == remote_nodes@.len() == old(remote_nodes)@.len(),
            lv == nodes_view(local_nodes@),
            forall|j: int|
                0 <= j < i ==> node_view(#[trigger] remote_nodes@[j]) == mark_node(
                    node_view(old(remote_nodes)@[j]),
                    lv,
                ),
            forall|j: int| i <= j < n ==> #[trigger] remote_nodes@[j] == old(remote_nodes)@[j],
        decreases n - i,
    {
        let node = &mut remote_nodes[i];
        node.exists_locally = false;
        let found = find_by_name(local_nodes, &node.name);
        proof {
            lemma_first_named(lv, node.name@);
        }
        match found {
            Some(k) => {
                let local = &local_nodes[k];
                if node.is_dir && local.is_dir {
                    node.exists_locally = true;
                    assert(decreases_to!(old(remote_nodes)@ => old(remote_nodes)@[i as int]));
                    mark_local_existence(&mut node.children, local.children.as_slice());
                } else if !node.is_dir && !local.is_dir {
                    node.exists_locally = true;
                } else if node.is_dir {
                    assert(decreases_to!(old(remote_nodes)@ => old(remote_nodes)@[i as int]));
                    reset_exists_locally(&mut node.children);
                }
            },
            None => {
                if node.is_dir {
                    reset_exists_locally(&mut node.children);
                }
            },
        }
        i = i + 1;
    }
    assert(nodes_view(remote_nodes@) =~= mark_nodes(nodes_view(old(remote_nodes)@), lv));
}

/// `a` and `b` are the same tree but for the `exists_locally` marks.
pub open spec fn same_shape(a: NodeView, b: NodeView) -> bool
    decreases a,
{
    &&& a.name == b.name
    &&& a.path == b.path
    &&& a.is_dir == b.is_dir
    &&& a.size == b.size
    &&& a.remote_id == b.remote_id
    &&& a.mime_type == b.mime_type
    &&& a.children.len() == b.children.len()
    &&& forall|i: int|
        0 <= i < a.children.len() ==> same_shape(#[trigger] a.children[i], b.children[i])
}

pub open spec fn same_shapes(a: Seq<NodeView>, b: Seq<NodeView>) -> bool {
    a.len() == b.len() && forall|i: int| 0 <= i < a.len() ==> same_shape(#[trigger] a[i], b[i])
}

/// Clearing the marks changes nothing but the marks.
pub proof fn lemma_reset_keeps_shape(v: NodeView)
    ensures
        same_shape(reset_node(v), v),
    decreases v,
{
    if v.is_dir {
        assert forall|i: int| 0 <= i < v.children.len() implies same_shape(
            #[trigger] reset_node(v).children[i],
            v.children[i],
        ) by {
            lemma_reset_keeps_shape(v.children[i]);
        }
    } else {
        lemma_same_shape_refl_all(v.children);
    }
}

pub proof fn lemma_same_shape_refl(v: NodeView)
    ensures
        same_shape(v, v),
    decreases v,
{
    lemma_same_shape_refl_all(v.children);
}

pub proof fn lemma_same_shape_refl_all(s: Seq<NodeView>)
    ensures
        forall|i: int| 0 <= i < s.len() ==> same_shape(#[trigger] s[i], s[i]),
    decreases s,
{
    assert forall|i: int| 0 <= i < s.len() implies same_shape(#[trigger] s[i], s[i]) by {
        lemma_same_shape_refl(s[i]);
    }
}

/// Marking a remote tree against a local one changes nothing but the `exists_locally`
/// marks: names, paths, kinds, sizes, ids, MIME types and the tree's shape stay as they were.
pub proof fn mark_keeps_shape(remote: Seq<NodeView>, local: Seq<NodeView>)
    ensures
        same_shapes(mark_nodes(remote, local), remote),
    decreases remote,
{
    assert forall|i: int| 0 <= i < remote.len() implies same_shape(
        #[trigger] mark_nodes(remote, local)[i],
        remote[i],
    ) by {
        lemma_mark_node_keeps_shape(remote[i], local);
    }
}

proof fn lemma_mark_node_keeps_shape(r: NodeView, local: Seq<NodeView>)
    ensures
        same_shape(mark_node(r, local), r),
    decreases r,
{
    lemma_first_named(local, r.name);
    match first_named(local, r.name) {
        Some(k) => {
            let l = local[k];
            if r.is_dir && l.is_dir {
                assert forall|i: int| 0 <= i < r.children.len() implies same_shape(
                    #[trigger] mark_node(r, local).children[i],
                    r.children[i],
                ) by {
                    lemma_mark_node_keeps_shape(r.children[i], l.children);
                }
            } else if r.is_dir {
                assert forall|i: int| 0 <= i < r.children.len() implies same_shape(
                    #[trigger] mark_node(r, local).children[i],
                    r.children[i],
                ) by {
                    lemma_reset_keeps_shape(r.children[i]);
                }
            } else {
                lemma_same_shape_refl_all(r.children);
            }
        },
        None => {
            if r.is_dir {
                assert forall|i: int| 0 <= i < r.children.len() implies same_shape(
                    #[trigger] mark_node(r, local).children[i],
                    r.children[i],
                ) by {
                    lemma_reset_keeps_shape(r.children[i]);
                }
            } else {
                lemma_same_shape_refl_all(r.children);
            }
        },
    }
}

/// Clearing the marks twice clears them once.
pub proof fn reset_is_idempotent(s: Seq<NodeView>)
    ensures
        reset_nodes(reset_nodes(s)) == reset_nodes(s),
    decreases s,
{
    assert forall|i: int| 0 <= i < s.len() implies #[trigger] reset_nodes(reset_nodes(s))[i]
        == reset_nodes(s)[i] by {
        lemma_reset_node_idempotent(s[i]);
    }
    assert(reset_nodes(reset_nodes(s)) =~= reset_nodes(s));
}

proof fn lemma_reset_node_idempotent(v: NodeView)
    ensures
        reset_node(reset_node(v)) == reset_node(v),
    decreases v,
{
    if v.is_dir {
        reset_is_idempotent(v.children);
    }
}

/// Marking is idempotent: marking an already marked tree against the same local tree
/// gives the same marks.
pub proof fn mark_is_idempotent(remote: Seq<NodeView>, local: Seq<NodeView>)
    ensures
        mark_nodes(mark_nodes(remote, local), local) == mark_nodes(remote, local),
    decreases remote,
{
    assert forall|i: int| 0 <= i < remote.len() implies #[trigger] mark_nodes(
        mark_nodes(remote, local),
        local,
    )[i] == mark_nodes(remote, local)[i] by {
        lemma_mark_node_idempotent(remote[i], local);
    }
    assert(mark_nodes(mark_nodes(remote, local), local) =~= mark_nodes(remote, local));
}

proof fn lemma_mark_node_idempotent(r: NodeView, local: Seq<NodeView>)
    ensures
        mark_node(mark_node(r, local), local) == mark_node(r, local),
    decreases r,
{
    match first_named(local, r.name) {
        Some(k) => {
            let l = local[k];
            if r.is_dir && l.is_dir {
                mark_is_idempotent(r.children, l.children);
            } else if r.is_dir {
                reset_is_idempotent(r.children);
            }
        },
        None => {
            if r.is_dir {
                reset_is_idempotent(r.children);
            }
        },
    }
}

/// The lookup that `find_node` makes: in order, a node whose path is `p` is the answer;
/// otherwise the search descends into a node whose path followed by `/` starts `p`, or whose
/// path is `/`, and goes on with the next sibling when nothing is found there.
pub open spec fn find_from(s: Seq<NodeView>, p: Seq<char>, i: int) -> Option<NodeView>
    decreases s, s.len() - i,
{
    if i < 0 || i >= s.len() {
        None
    } else {
        let n = s[i];
        if n.path == p {
            Some(n)
        } else if starts_with(p, n.path.push('/')) || n.path == seq!['/'] {
            match find_from(n.children, p, 0) {
                Some(f) => Some(f),
                None => find_from(s, p, i + 1),
            }
        } else {
            find_from(s, p, i + 1)
        }
    }
}

pub open spec fn find_spec(s: Seq<NodeView>, p: Seq<char>) -> Option<NodeView> {
    find_from(s, p, 0)
}

/// What `find_node` finds has the path that was asked for.
pub proof fn found_node_has_path(s: Seq<NodeView>, p: Seq<char>, i: int)
    ensures
        find_from(s, p, i) matches Some(n) ==> n.path == p,
    decreases s, s.len() - i,
{
    if 0 <= i < s.len() {
        let n = s[i];
        if n.path != p {
            if starts_with(p, n.path.push('/')) || n.path == seq!['/'] {
                found_node_has_path(n.children, p, 0);
            }
            found_node_has_path(s, p, i + 1);
        }
    }
}

fn eq_chars(a: &Vec<char>, b: &Vec<char>) -> (r: bool)
    ensures
        r == (a@ == b@),
{
    if a.len() != b.len() {
        return false;
    }
    let mut k: usize = 0;
    while k < a.len()
        invariant
            a@.len() == b@.len(),
            k <= a@.len(),
            forall|t: int| 0 <= t < k ==> a@[t] == b@[t],
        decreases a@.len() - k,
    {
        if a[k] != b[k] {
            return false;
        }
        k = k + 1;
    }
    assert(a@ =~= b@);
    true
}

fn find_node_from<'a>(nodes: &'a [FileNode], path: &Vec<char>, start: usize) -> (r: Option<
    &'a FileNode,
>)
    requires
        start <= nodes@.len(),
    ensures
        match r {
            Some(n) => find_from(nodes_view(nodes@), path@, start as int) == Some(n@),
            None => find_from(nodes_view(nodes@), path@, start as int) is None,
        },
    decreases nodes@, nodes@.len() - start,
{
    if start == nodes.len() {
        return None;
    }
    let node = &nodes[start];
    let np = chars_of(node.path.as_str());
    if eq_chars(&np, path) {
        return Some(node);
    }
    let mut prefix = np.clone();
    prefix.push('/');
    let slash: Vec<char> = vec!['/'];
    if starts_with_exec(path, &prefix) || eq_chars(&np, &slash) {
        assert(slash@ =~= seq!['/']);
        assert(decreases_to!(nodes@ => nodes@[start as int]));
        let found = find_node_from(node.children.as_slice(), path, 0);
        if found.is_some() {
            return found;
        }
    } else {
        assert(slash@ =~= seq!['/']);
    }
    find_node_from(nodes, path, start + 1)
}

/// The node at `path`, looked up as [`find_spec`] says.
pub fn find_node<'a>(nodes: &'a [FileNode], path: &str) -> (r: Option<&'a FileNode>)
    ensures
        match r {
            Some(n) => find_spec(nodes_view(nodes@), path@) == Some(n@) && n@.path == path@,
            None => find_spec(nodes_view(nodes@), path@) is None,
        },
{
    let p = chars_of(path);
    proof {
        found_node_has_path(nodes_view(nodes@), path@, 0);
    }
    find_node_from(nodes, &p, 0)
}

fn copy_opt(o: &Option<String>) -> (r: Option<String>)
    ensures
        opt_view(r) == opt_view(*o),
{
    match o {
        Some(s) => Some(s.clone()),
        None => None,
    }
}

/// A deep copy of a node.
pub fn copy_node(n: &FileNode) -> (r: FileNode)
    ensures
        r@ == n@,
    decreases n,
{
    let mut children: Vec<FileNode> = Vec::new();
    let mut k: usize = 0;
    while k < n.children.len()
        invariant
            k <= n.children@.len(),
            forall|j: int| 0 <= j < k ==> node_view(#[trigger] children@[j]) == node_view(n.children@[j]),
            children@.len() == k,
        decreases n.children@.len() - k,
    {
        assert(decreases_to!(n => n.children@[k as int]));
        let c = copy_node(&n.children[k]);
        children.push(c);
        k = k + 1;
    }
    assert(nodes_view(children@) =~= nodes_view(n.children@));
    FileNode {
        name: n.name.clone(),
        path: n.path.clone(),
        is_dir: n.is_dir,
        size: n.size,
        remote_id: copy_opt(&n.remote_id),
        mime_type: copy_opt(&n.mime_type),
        exists_locally: n.exists_locally,
        children,
    }
}

/// The files (not folders) at and below `n`, in the order of a depth-first walk that keeps
/// a stack: a node's entries are pushed in order, so the last entry is walked first.
pub open spec fn flat_node(n: NodeView) -> Seq<NodeView>
    decreases n, 0int,
{
    (if n.is_dir {
        Seq::<NodeView>::empty()
    } else {
        seq![n]
    }) + flat_rev(n.children, n.children.len() as int)
}

/// The walks of `s[k-1]`, `s[k-2]`, ..., `s[0]`, one after the other.
pub open spec fn flat_rev(s: Seq<NodeView>, k: int) -> Seq<NodeView>
    decreases s, k,
{
    if k <= 0 || k > s.len() {
        Seq::empty()
    } else {
        flat_node(s[k - 1]) + flat_rev(s, k - 1)
    }
}

fn flatten_into(n: &FileNode, out: &mut Vec<FileNode>)
    ensures
        nodes_view(final(out)@) == nodes_view(old(out)@) + flat_node(n@),
    decreases n,
{
    if !n.is_dir {
        out.push(copy_node(n));
        assert(nodes_view(out@) =~= nodes_view(old(out)@) + seq![n@]);
    } else {
        assert(nodes_view(out@) =~= nodes_view(old(out)@) + Seq::<NodeView>::empty());
    }
    let ghost start = nodes_view(out@);
    let ghost cv = nodes_view(n.children@);
    let mut k = n.children.len();
    assert(flat_rev(cv, k as int) == flat_rev(cv, cv.len() as int));
    while k > 0
        invariant
            k <= n.children@.len(),
            cv == nodes_view(n.children@),
            nodes_view(out@) + flat_rev(cv, k as int) == start + flat_rev(cv, cv.len() as int),
        decreases k,
    {
        k = k - 1;
        let ghost before = nodes_view(out@);
        assert(decreases_to!(n => n.children@[k as int]));
        flatten_into(&n.children[k], out);
        assert(flat_rev(cv, k + 1) == flat_node(cv[k as int]) + flat_rev(cv, k as int));
        assert(nodes_view(out@) + flat_rev(cv, k as int) =~= before + flat_rev(cv, k + 1));
    }
    assert(nodes_view(out@) =~= nodes_view(old(out)@) + flat_node(n@));
}

/// The files below the node at `root_path` (that node included if it is a file), in the
/// order of [`flat_node`]; nothing when no node has that path.
pub fn flatten_files(nodes: &[FileNode], root_path: &str) -> (r: Vec<FileNode>)
    ensures
        nodes_view(r@) == match find_spec(nodes_view(nodes@), root_path@) {
            Some(root) => flat_node(root),
            None => Seq::empty(),
        },
{
    let mut result: Vec<FileNode> = Vec::new();
    match find_node(nodes, root_path) {
        Some(root) => {
            flatten_into(root, &mut result);
            assert(nodes_view(result@) =~= flat_node(root@));
        },
        None => {
            assert(nodes_view(result@) =~= Seq::<NodeView>::empty());
        },
    }
    result
}

/// The remote id of the node at `remote_path`, if that node has one.
pub fn find_remote_id_by_path(nodes: &[FileNode], remote_path: &str) -> (r: Option<String>)
    ensures
        opt_view(r) == match find_spec(nodes_view(nodes@), remote_path@) {
            Some(n) => n.remote_id,
            None => None,
        },
{
    match find_node(nodes, remote_path) {
        Some(n) => copy_opt(&n.remote_id),
        None => None,
    }
}

/// Every node that `flat_node` lists is a file.
pub proof fn flattened_are_files(n: NodeView)
    ensures
        forall|i: int| 0 <= i < flat_node(n).len() ==> !(#[trigger] flat_node(n)[i]).is_dir,
    decreases n, 0int,
{
    flattened_rev_are_files(n.children, n.children.len() as int);
}

pub proof fn flattened_rev_are_files(s: Seq<NodeView>, k: int)
    ensures
        forall|i: int| 0 <= i < flat_rev(s, k).len() ==> !(#[trigger] flat_rev(s, k)[i]).is_dir,
    decreases s, k,
{
    if 0 < k <= s.len() {
        flattened_are_files(s[k - 1]);
        flattened_rev_are_files(s, k - 1);
        let a = flat_node(s[k - 1]);
        let b = flat_rev(s, k - 1);
        assert forall|i: int| 0 <= i < flat_rev(s, k).len() implies !(#[trigger] flat_rev(
            s,
            k,
        )[i]).is_dir by {
            if i < a.len() {
                assert(flat_rev(s, k)[i] == a[i]);
            } else {
                assert(flat_rev(s, k)[i] == b[i - a.len()]);
            }
        }
    }
}

/// The node reached from `n` by following `route`, one child index per step.
pub open spec fn descendant_at(n: NodeView, route: Seq<int>) -> Option<NodeView>
    decreases route.len(),
{
    if route.len() == 0 {
        Some(n)
    } else if 0 <= route[0] < n.children.len() {
        descendant_at(n.children[route[0]], route.drop_first())
    } else {
        None
    }
}

proof fn lemma_rev_keeps(s: Seq<NodeView>, k: int, i: int, d: NodeView)
    requires
        0 <= i < k <= s.len(),
        flat_node(s[i]).contains(d),
    ensures
        flat_rev(s, k).contains(d),
    decreases k,
{
    let a = flat_node(s[k - 1]);
    let b = flat_rev(s, k - 1);
    assert(flat_rev(s, k) == a + b);
    if i == k - 1 {
        let j = choose|j: int| 0 <= j < a.len() && a[j] == d;
        assert((a + b)[j] == d);
    } else {
        lemma_rev_keeps(s, k - 1, i, d);
        let j = choose|j: int| 0 <= j < b.len() && b[j] == d;
        assert((a + b)[a.len() + j] == d);
    }
}

proof fn lemma_flat_node_complete(n: NodeView, route: Seq<int>)
    ensures
        descendant_at(n, route) matches Some(d) ==> (!d.is_dir ==> flat_node(n).contains(d)),
    decreases route.len(),
{
    if route.len() == 0 {
        if !n.is_dir {
            assert(flat_node(n)[0] == n);
        }
    } else if 0 <= route[0] < n.children.len() {
        let c = n.children[route[0]];
        lemma_flat_node_complete(c, route.drop_first());
        if let Some(d) = descendant_at(n, route) {
            if !d.is_dir {
                lemma_rev_keeps(n.children, n.children.len() as int, route[0], d);
                let head: Seq<NodeView> = if n.is_dir { Seq::empty() } else { seq![n] };
                let b = flat_rev(n.children, n.children.len() as int);
                assert(flat_node(n) == head + b);
                let j = choose|j: int| 0 <= j < b.len() && b[j] == d;
                assert((head + b)[head.len() + j] == d);
            }
        }
    }
}

/// Flattening a folder collects every file below it, however deep: each file node reached
/// from `n` through any chain of children (or `n` itself, when it is a file) is in
/// `flat_node(n)`, which is what `flatten_files` returns for the node it finds. Together with
/// `flattened_are_files`, the walk holds exactly the files of the subtree.
pub proof fn flattening_reaches_every_file(n: NodeView, route: Seq<int>)
    ensures
        descendant_at(n, route) matches Some(d) ==> (!d.is_dir ==> flat_node(n).contains(d)),
{
    lemma_flat_node_complete(n, route);
}

} // verus!

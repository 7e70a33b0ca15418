//! Building the local file tree from what a scan of the sync folder reports.
use vstd::prelude::*;
use crate::text::{chars_of, concat2, concat3, ends_with, starts_with, ends_with_exec, starts_with_exec};
use crate::tree::{FileNode, NodeView, nodes_view};

verus! {

/// One entry of a local folder as the file system reports it: a folder with its entries, or
/// a file with its size.
pub struct LocalEntry {
    pub name: String,
    pub is_dir: bool,
    pub size: u64,
    pub children: Vec<LocalEntry>,
}

/// What a look at the sync folder found.
pub enum LocalListing {
    /// Nothing exists at the path.
    Missing,
    /// The path exists but is not a folder.
    NotADirectory,
    /// The folder's entries.
    Entries(Vec<LocalEntry>),
}

/// Hidden entries (a leading `.`) and unfinished downloads (a `.part` suffix) are left out.
pub open spec fn is_visible_name(name: Seq<char>) -> bool {
    !starts_with(name, seq!['.']) && !ends_with(name, seq!['.', 'p', 'a', 'r', 't'])
}

pub fn is_visible_entry_name(name: &str) -> (r: bool)
    ensures
        r == is_visible_name(name@),
{
    let v = chars_of(name);
    let dot: Vec<char> = vec!['.'];
    let part: Vec<char> = vec!['.', 'p', 'a', 'r', 't'];
    assert(dot@ =~= seq!['.']);
    assert(part@ =~= seq!['.', 'p', 'a', 'r', 't']);
    !starts_with_exec(&v, &dot) && !ends_with_exec(&v, &part)
}

/// `a` sorts strictly before `b`: char by char, a proper prefix first (the order of
/// `OsStr` names on Unix, whose bytes are UTF-8).
pub open spec fn name_lt(a: Seq<char>, b: Seq<char>) -> bool
    decreases a.len(),
{
    if b.len() == 0 {
        false
    } else if a.len() == 0 {
        true
    } else if a[0] < b[0] {
        true
    } else if a[0] > b[0] {
        false
    } else {
        name_lt(a.drop_first(), b.drop_first())
    }
}

fn name_lt_exec(a: &Vec<char>, b: &Vec<char>) -> (r: bool)
    ensures
        r == name_lt(a@, b@),
{
    let mut k: usize = 0;
    assert(a@.subrange(0, a@.len() as int) =~= a@);
    assert(b@.subrange(0, b@.len() as int) =~= b@);
    while k < a.len() && k < b.len() && a[k] == b[k]
        invariant
            k <= a@.len(),
            k <= b@.len(),
            a@.subrange(0, k as int) == b@.subrange(0, k as int),
            name_lt(a@, b@) == name_lt(a@.subrange(k as int, a@.len() as int), b@.subrange(k as int, b@.len() as int)),
        decreases a@.len() - k,
    {
        assert(a@.subrange(k as int, a@.len() as int).drop_first() =~= a@.subrange(k + 1, a@.len() as int));
        assert(b@.subrange(k as int, b@.len() as int).drop_first() =~= b@.subrange(k + 1, b@.len() as int));
        k = k + 1;
        assert(a@.subrange(0, k as int) =~= b@.subrange(0, k as int));
    }
    let ghost ra = a@.subrange(k as int, a@.len() as int);
    let ghost rb = b@.subrange(k as int, b@.len() as int);
    if k == b.len() {
        assert(rb.len() == 0);
        false
    } else if k == a.len() {
        assert(ra.len() == 0 && rb.len() > 0);
        true
    } else {
        assert(ra[0] == a@[k as int] && rb[0] == b@[k as int]);
        assert(ra.len() > 0 && rb.len() > 0);
        a[k] < b[k]
    }
}

/// The indices `j < n` of visible names, in order.
pub open spec fn visible_indices(names: Seq<Seq<char>>, n: int) -> Seq<int>
    decreases n,
{
    if n <= 0 {
        Seq::empty()
    } else {
        visible_indices(names, n - 1) + if is_visible_name(names[n - 1]) {
            seq![n - 1]
        } else {
            Seq::<int>::empty()
        }
    }
}

/// `order` with index `j` placed after every index whose name does not sort after `names[j]`.
pub open spec fn insert_index(names: Seq<Seq<char>>, j: int, order: Seq<int>) -> Seq<int>
    decreases order.len(),
{
    if order.len() == 0 {
        seq![j]
    } else if name_lt(names[j], names[order[0]]) {
        seq![j] + order
    } else {
        seq![order[0]] + insert_index(names, j, order.drop_first())
    }
}

/// Insertion sort of the indices `ids` by name: a stable sort.
pub open spec fn sort_indices(names: Seq<Seq<char>>, ids: Seq<int>) -> Seq<int>
    decreases ids.len(),
{
    if ids.len() == 0 {
        Seq::empty()
    } else {
        insert_index(names, ids.last(), sort_indices(names, ids.drop_last()))
    }
}

/// The order in which a folder's entries are scanned: the visible ones, sorted by name.
pub open spec fn entry_order(names: Seq<Seq<char>>) -> Seq<int> {
    sort_indices(names, visible_indices(names, names.len() as int))
}

proof fn lemma_insert_at(names: Seq<Seq<char>>, j: int, order: Seq<int>, pos: int)
    requires
        0 <= pos <= order.len(),
        forall|k: int| 0 <= k < pos ==> !name_lt(names[j], names[#[trigger] order[k]]),
        pos < order.len() ==> name_lt(names[j], names[order[pos]]),
    ensures
        insert_index(names, j, order) == order.subrange(0, pos) + seq![j] + order.subrange(
            pos,
            order.len() as int,
        ),
    decreases order.len(),
{
    if order.len() == 0 {
        assert(seq![j] =~= order.subrange(0, pos) + seq![j] + order.subrange(pos, order.len() as int));
    } else if pos == 0 {
        assert(order.subrange(0, 0) + seq![j] + order.subrange(0, order.len() as int) =~= seq![j] + order);
    } else {
        let rest = order.drop_first();
        assert forall|k: int| 0 <= k < pos - 1 implies !name_lt(names[j], names[#[trigger] rest[k]]) by {
            assert(rest[k] == order[k + 1]);
        }
        lemma_insert_at(names, j, rest, pos - 1);
        assert(seq![order[0]] + (rest.subrange(0, pos - 1) + seq![j] + rest.subrange(pos - 1, rest.len() as int))
            =~= order.subrange(0, pos) + seq![j] + order.subrange(pos, order.len() as int));
    }
}

fn chars_of_names(names: &Vec<String>) -> (r: Vec<Vec<char>>)
    ensures
        r@.len() == names@.len(),
        forall|i: int| 0 <= i < names@.len() ==> (#[trigger] r@[i])@ == names@[i]@,
{
    let mut r: Vec<Vec<char>> = Vec::new();
    let mut i: usize = 0;
    while i < names.len()
        invariant
            i <= names@.len(),
            r@.len() == i,
            forall|k: int| 0 <= k < i ==> (#[trigger] r@[k])@ == names@[k]@,
        decreases names@.len() - i,
    {
        r.push(chars_of(names[i].as_str()));
        i = i + 1;
    }
    r
}

pub open spec fn names_view(names: Seq<String>) -> Seq<Seq<char>> {
    names.map_values(|s: String| s@)
}

/// The indices of `names` in scanning order: visible names only, sorted.
pub fn visible_entry_order(names: &Vec<String>) -> (r: Vec<usize>)
    ensures
        r@.len() == entry_order(names_view(names@)).len(),
        forall|k: int| 0 <= k < r@.len() ==> r@[k] as int == #[trigger] entry_order(names_view(names@))[k],
{
    let ghost nv = names_view(names@);
    let cs = chars_of_names(names);
    let mut order: Vec<usize> = Vec::new();
    let mut j: usize = 0;
    while j < names.len()
        invariant
            j <= names@.len(),
            nv == names_view(names@),
            nv.len() == names@.len(),
            cs@.len() == names@.len(),
            forall|i: int| 0 <= i < names@.len() ==> (#[trigger] cs@[i])@ == nv[i],
            order@.map_values(|x: usize| x as int) == sort_indices(nv, visible_indices(nv, j as int)),
            forall|k: int| 0 <= k < order@.len() ==> order@[k] < j,
        decreases names@.len() - j,
    {
        let ghost before = order@.map_values(|x: usize| x as int);
        if is_visible_entry_name(names[j].as_str()) {
            let mut pos: usize = 0;
            while pos < order.len() && !name_lt_exec(&cs[j], &cs[order[pos]])
                invariant
                    pos <= order@.len(),
                    j < names@.len() == cs@.len(),
                    forall|i: int| 0 <= i < names@.len() ==> (#[trigger] cs@[i])@ == nv[i],
                    forall|k: int| 0 <= k < order@.len() ==> order@[k] < j,
                    before == order@.map_values(|x: usize| x as int),
                    forall|k: int| 0 <= k < pos ==> !name_lt(nv[j as int], nv[#[trigger] before[k]]),
                decreases order@.len() - pos,
            {
                pos = pos + 1;
            }
            proof {
                lemma_insert_at(nv, j as int, before, pos as int);
                assert(visible_indices(nv, j + 1) =~= visible_indices(nv, j as int).push(j as int));
                assert(visible_indices(nv, j + 1).drop_last() =~= visible_indices(nv, j as int));
            }
            order.insert(pos, j);
            assert(order@.map_values(|x: usize| x as int) =~= before.subrange(0, pos as int) + seq![j as int] + before.subrange(pos as int, before.len() as int));
        } else {
            assert(visible_indices(nv, j + 1) =~= visible_indices(nv, j as int));
        }
        j = j + 1;
    }
    assert(nv.len() == names@.len());
    order
}


pub open spec fn in_range(ids: Seq<int>, bound: int) -> bool {
    forall|k: int| 0 <= k < ids.len() ==> 0 <= #[trigger] ids[k] < bound
}

proof fn lemma_visible_in_range(names: Seq<Seq<char>>, n: int)
    ensures
        in_range(visible_indices(names, n), n),
    decreases n,
{
    if n > 0 {
        lemma_visible_in_range(names, n - 1);
        let a = visible_indices(names, n - 1);
        let b = if is_visible_name(names[n - 1]) {
            seq![n - 1]
        } else {
            Seq::<int>::empty()
        };
        assert forall|k: int| 0 <= k < visible_indices(names, n).len() implies 0
            <= #[trigger] visible_indices(names, n)[k] < n by {
            if k < a.len() {
                assert(visible_indices(names, n)[k] == a[k]);
            } else {
                assert(visible_indices(names, n)[k] == b[k - a.len()]);
            }
        }
    }
}

proof fn lemma_insert_in_range(names: Seq<Seq<char>>, j: int, order: Seq<int>, bound: int)
    requires
        0 <= j < bound,
        in_range(order, bound),
    ensures
        in_range(insert_index(names, j, order), bound),
    decreases order.len(),
{
    if order.len() > 0 && !name_lt(names[j], names[order[0]]) {
        let rest = order.drop_first();
        assert(in_range(rest, bound)) by {
            assert forall|k: int| 0 <= k < rest.len() implies 0 <= #[trigger] rest[k] < bound by {
                assert(rest[k] == order[k + 1]);
            }
        }
        lemma_insert_in_range(names, j, rest, bound);
        let t = insert_index(names, j, rest);
        assert forall|k: int| 0 <= k < insert_index(names, j, order).len() implies 0
            <= #[trigger] insert_index(names, j, order)[k] < bound by {
            if k > 0 {
                assert(insert_index(names, j, order)[k] == t[k - 1]);
            }
        }
    } else if order.len() > 0 {
        assert forall|k: int| 0 <= k < insert_index(names, j, order).len() implies 0
            <= #[trigger] insert_index(names, j, order)[k] < bound by {
            if k > 0 {
                assert(insert_index(names, j, order)[k] == order[k - 1]);
            }
        }
    }
}

proof fn lemma_sort_in_range(names: Seq<Seq<char>>, ids: Seq<int>, bound: int)
    requires
        in_range(ids, bound),
    ensures
        in_range(sort_indices(names, ids), bound),
    decreases ids.len(),
{
    if ids.len() > 0 {
        let rest = ids.drop_last();
        assert(in_range(rest, bound)) by {
            assert forall|k: int| 0 <= k < rest.len() implies 0 <= #[trigger] rest[k] < bound by {
                assert(rest[k] == ids[k]);
            }
        }
        lemma_sort_in_range(names, rest, bound);
        lemma_insert_in_range(names, ids.last(), sort_indices(names, rest), bound);
    }
}

/// Every index in the scanning order names an entry of the folder.
pub proof fn entry_order_in_range(names: Seq<Seq<char>>)
    ensures
        in_range(entry_order(names), names.len() as int),
{
    lemma_visible_in_range(names, names.len() as int);
    lemma_sort_in_range(names, visible_indices(names, names.len() as int), names.len() as int);
}

pub open spec fn entry_names(s: Seq<LocalEntry>) -> Seq<Seq<char>> {
    s.map_values(|e: LocalEntry| e.name@)
}

/// The path of the entry `name` inside the folder at `prefix`.
pub open spec fn child_path(prefix: Seq<char>, name: Seq<char>) -> Seq<char> {
    if prefix == seq!['/'] {
        seq!['/'] + name
    } else {
        prefix + seq!['/'] + name
    }
}

pub fn child_path_exec(prefix: &str, name: &str) -> (r: String)
    ensures
        r@ == child_path(prefix@, name@),
{
    let p = chars_of(prefix);
    proof {
        reveal_strlit("/");
    }
    if p.len() == 1 && p[0] == '/' {
        assert(p@ =~= seq!['/']);
        concat2("/", name)
    } else {
        assert(p@ != seq!['/']);
        concat3(prefix, "/", name)
    }
}

/// The node that a scanned entry becomes: present locally, without a remote id or MIME type,
/// a folder of size 0 with its entries, or a file with its size and no entries.
pub open spec fn local_node(e: LocalEntry, prefix: Seq<char>) -> NodeView
    decreases e,
{
    let path = child_path(prefix, e.name@);
    NodeView {
        name: e.name@,
        path,
        is_dir: e.is_dir,
        size: if e.is_dir { 0 } else { e.size },
        remote_id: None,
        mime_type: None,
        exists_locally: true,
        children: if e.is_dir { local_nodes(e.children@, path) } else { Seq::empty() },
    }
}

/// The nodes of a scanned folder: its visible entries in name order.
pub open spec fn local_nodes(s: Seq<LocalEntry>, prefix: Seq<char>) -> Seq<NodeView>
    decreases s,
{
    let ord = entry_order(entry_names(s));
    Seq::new(
        ord.len(),
        |k: int|
            if 0 <= k < ord.len() && 0 <= ord[k] < s.len() {
                local_node(s[ord[k]], prefix)
            } else {
                arbitrary()
            },
    )
}

fn names_of(entries: &Vec<LocalEntry>) -> (r: Vec<String>)
    ensures
        names_view(r@) == entry_names(entries@),
{
    let mut r: Vec<String> = Vec::new();
    let mut i: usize = 0;
    while i < entries.len()
        invariant
            i <= entries@.len(),
            names_view(r@) == entry_names(entries@.subrange(0, i as int)),
        decreases entries@.len() - i,
    {
        let ghost before = r@;
        let nm = entries[i].name.clone();
        r.push(nm);
        i = i + 1;
        assert(r@ == before.push(nm));
        assert(names_view(r@) =~= names_view(before).push(nm@));
        assert(entry_names(entries@.subrange(0, i as int)) =~= entry_names(entries@.subrange(0, i - 1)).push(entries@[i - 1].name@));
    }
    assert(entries@.subrange(0, i as int) =~= entries@);
    r
}

fn build_local_nodes(entries: &Vec<LocalEntry>, prefix: &str) -> (r: Vec<FileNode>)
    ensures
        nodes_view(r@) == local_nodes(entries@, prefix@),
    decreases entries@,
{
    let names = names_of(entries);
    let ord = visible_entry_order(&names);
    let ghost eo = entry_order(entry_names(entries@));
    proof {
        entry_order_in_range(entry_names(entries@));
    }
    let mut out: Vec<FileNode> = Vec::new();
    let mut k: usize = 0;
    while k < ord.len()
        invariant
            k <= ord@.len() == eo.len(),
            eo == entry_order(entry_names(entries@)),
            in_range(eo, entries@.len() as int),
            entry_names(entries@).len() == entries@.len(),
            forall|t: int| 0 <= t < ord@.len() ==> ord@[t] as int == #[trigger] eo[t],
            out@.len() == k,
            forall|t: int| 0 <= t < k ==> node_view_eq(#[trigger] out@[t], local_node(entries@[eo[t]], prefix@)),
        decreases ord@.len() - k,
    {
        let idx = ord[k];
        assert(0 <= eo[k as int] < entries@.len());
        let e = &entries[idx];
        let path = child_path_exec(prefix, e.name.as_str());
        let node = if e.is_dir {
            assert(decreases_to!(entries@ => entries@[idx as int]));
            let children = build_local_nodes(&e.children, path.as_str());
            FileNode {
                name: e.name.clone(),
                path,
                is_dir: true,
                size: 0,
                remote_id: None,
                mime_type: None,
                exists_locally: true,
                children,
            }
        } else {
            let children: Vec<FileNode> = Vec::new();
            assert(nodes_view(children@) =~= Seq::<NodeView>::empty());
            FileNode {
                name: e.name.clone(),
                path,
                is_dir: false,
                size: e.size,
                remote_id: None,
                mime_type: None,
                exists_locally: true,
                children,
            }
        };
        out.push(node);
        k = k + 1;
    }
    assert(nodes_view(out@) =~= local_nodes(entries@, prefix@));
    out
}

pub open spec fn node_view_eq(n: FileNode, v: NodeView) -> bool {
    n@ == v
}

/// The scan of the sync folder at `root`: an error when nothing is there or it is not a
/// folder, else the tree of its visible entries with paths below `/`.
pub fn scan_local_dir(root: &str, listing: &LocalListing) -> (r: Result<Vec<FileNode>, String>)
    ensures
        match listing {
            LocalListing::Missing => r matches Err(e) && e@ == "本地路径不存在: "@ + root@,
            LocalListing::NotADirectory => r matches Err(e) && e@ == "路径不是文件夹: "@ + root@,
            LocalListing::Entries(es) => r matches Ok(ns) && nodes_view(ns@) == local_nodes(
                es@,
                seq!['/'],
            ),
        },
{
    match listing {
        LocalListing::Missing => Err(concat2("本地路径不存在: ", root)),
        LocalListing::NotADirectory => Err(concat2("路径不是文件夹: ", root)),
        LocalListing::Entries(es) => {
            let slash = "/";
            proof {
                reveal_strlit("/");
            }
            assert(slash@ =~= seq!['/']);
            Ok(build_local_nodes(es, slash))
        },
    }
}
} // verus!

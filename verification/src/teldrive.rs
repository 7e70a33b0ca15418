//! Talking to a TelDrive server: addresses, answers and the remote tree.
use vstd::prelude::*;
use crate::outside::{opt_str_view, percent_encode, spec_status_reason, status_text, url_encode};
use crate::local_scan::{child_path, child_path_exec};
use crate::text::{concat2, concat3, decimal, str_eq, strip_trailing, strip_trailing_str};
use crate::tree::{FileNode, NodeView, nodes_view};

verus! {

/// A TelDrive server address as the client keeps it: without trailing `/`.
pub fn normalize_base_url(base_url: &str) -> (r: String)
    ensures
        r@ == strip_trailing(base_url@, '/'),
{
    strip_trailing_str(base_url, '/')
}

/// The answer to a connection test, from the HTTP status of the session request: 204 means
/// the token is not valid, 401 and 403 that authentication failed, any other 2xx success;
/// every other status is reported with its code and reason.
pub open spec fn connection_verdict(status: u16) -> Result<Seq<char>, Seq<char>> {
    if status == 204 {
        Err("认证令牌无效，请检查 access_token"@)
    } else if status == 401 || status == 403 {
        Err("认证失败，请重新获取 access_token"@)
    } else if 200 <= status <= 299 {
        Ok("连接成功"@)
    } else {
        Err("连接失败，状态码: "@ + decimal(status as nat) + " "@ + spec_status_reason(status))
    }
}

pub fn classify_test_connection_status(status: u16) -> (r: Result<String, String>)
    requires
        100 <= status <= 999,
    ensures
        crate::config::res_view(r) == connection_verdict(status),
{
    if status == 204 {
        Err("认证令牌无效，请检查 access_token".to_owned())
    } else if status == 401 || status == 403 {
        Err("认证失败，请重新获取 access_token".to_owned())
    } else if 200 <= status && status <= 299 {
        Ok("连接成功".to_owned())
    } else {
        let text = status_text(status);
        let r = concat2("连接失败，状态码: ", text.as_str());
        assert(r@ =~= "连接失败，状态码: "@ + decimal(status as nat) + " "@ + spec_status_reason(status));
        Err(r)
    }
}

/// The session endpoint that the connection test asks.
pub fn session_url(base_url: &str) -> (r: String)
    ensures
        r@ == base_url@ + "/api/auth/session"@,
{
    concat2(base_url, "/api/auth/session")
}

/// The cookie header value that carries the token.
pub fn auth_cookie(access_token: &str) -> (r: String)
    ensures
        r@ == "access_token="@ + access_token@,
{
    concat2("access_token=", access_token)
}

/// The text of `s` percent-encoded as `urlencoding::encode` does.
pub open spec fn encoded(s: Seq<char>) -> Seq<char> {
    percent_encode(vstd::utf8::encode_utf8(s))
}

/// The address of one page of a folder listing: sorted by name, 500 entries, from the
/// cursor when there is one.
pub open spec fn list_page_url(base: Seq<char>, path: Seq<char>, cursor: Option<Seq<char>>) -> Seq<char> {
    base + "/api/files?path="@ + encoded(path) + "&sort=name&order=asc&limit=500"@ + match cursor {
        Some(c) => "&cursor="@ + encoded(c),
        None => Seq::empty(),
    }
}

pub fn list_page_url_exec(base_url: &str, path: &str, cursor: &Option<String>) -> (r: String)
    ensures
        r@ == list_page_url(base_url@, path@, opt_str_view(*cursor)),
{
    let a = concat3(base_url, "/api/files?path=", url_encode(path).as_str());
    let b = concat2(a.as_str(), "&sort=name&order=asc&limit=500");
    match cursor {
        Some(c) => concat3(b.as_str(), "&cursor=", url_encode(c.as_str()).as_str()),
        None => {
            assert(b@ + Seq::<char>::empty() =~= b@);
            b
        },
    }
}

/// Paging goes on while the server hands back a non-empty cursor.
pub fn next_page_cursor(next_cursor: Option<String>) -> (r: Option<String>)
    ensures
        opt_str_view(r) == match next_cursor {
            Some(c) => if c@.len() > 0 { Some(c@) } else { None },
            None => None,
        },
{
    match next_cursor {
        Some(c) => if !c.as_str().is_empty() {
            Some(c)
        } else {
            None
        },
        None => None,
    }
}

/// One entry of a remote folder listing; a folder carries the entries listed below it.
pub struct RemoteEntry {
    pub id: Option<String>,
    pub name: String,
    pub file_type: String,
    pub size: Option<u64>,
    pub mime_type: Option<String>,
    pub children: Vec<RemoteEntry>,
}

/// An entry is a folder when its type is `folder`.
pub fn is_folder_type(file_type: &str) -> (r: bool)
    ensures
        r == (file_type@ == "folder"@),
{
    str_eq(file_type, "folder")
}

/// The node a listed entry becomes: not present locally, with the server's id; a folder of
/// size 0 with its entries, or a file with its size (0 when unknown) and MIME type.
pub open spec fn remote_node(e: RemoteEntry, path: Seq<char>) -> NodeView
    decreases e,
{
    let p = child_path(path, e.name@);
    let dir = e.file_type@ == "folder"@;
    NodeView {
        name: e.name@,
        path: p,
        is_dir: dir,
        size: if dir {
            0
        } else {
            match e.size {
                Some(n) => n,
                None => 0,
            }
        },
        remote_id: opt_str_view(e.id),
        mime_type: if dir { None } else { opt_str_view(e.mime_type) },
        exists_locally: false,
        children: if dir { remote_nodes(e.children@, p) } else { Seq::empty() },
    }
}

/// The nodes of a listed folder at `path`, in listing order.
pub open spec fn remote_nodes(s: Seq<RemoteEntry>, path: Seq<char>) -> Seq<NodeView>
    decreases s,
{
    Seq::new(
        s.len(),
        |i: int|
            if 0 <= i < s.len() {
                remote_node(s[i], path)
            } else {
                arbitrary()
            },
    )
}

fn clone_opt(o: &Option<String>) -> (r: Option<String>)
    ensures
        opt_str_view(r) == opt_str_view(*o),
{
    match o {
        Some(s) => Some(s.clone()),
        None => None,
    }
}

/// The remote tree below `path` built from the listings.
pub fn build_remote_tree(entries: &Vec<RemoteEntry>, path: &str) -> (r: Vec<FileNode>)
    ensures
        nodes_view(r@) == remote_nodes(entries@, path@),
    decreases entries@,
{
    let mut out: Vec<FileNode> = Vec::new();
    let mut i: usize = 0;
    while i < entries.len()
        invariant
            i <= entries@.len(),
            out@.len() == i,
            forall|t: int| 0 <= t < i ==> crate::local_scan::node_view_eq(#[trigger] out@[t], remote_node(entries@[t], path@)),
        decreases entries@.len() - i,
    {
        let e = &entries[i];
        let child = child_path_exec(path, e.name.as_str());
        let node = if is_folder_type(e.file_type.as_str()) {
            assert(decreases_to!(entries@ => entries@[i as int]));
            let children = build_remote_tree(&e.children, child.as_str());
            FileNode {
                name: e.name.clone(),
                path: child,
                is_dir: true,
                size: 0,
                remote_id: clone_opt(&e.id),
                mime_type: None,
                exists_locally: false,
                children,
            }
        } else {
            let children: Vec<FileNode> = Vec::new();
            assert(nodes_view(children@) =~= Seq::<NodeView>::empty());
            FileNode {
                name: e.name.clone(),
                path: child,
                is_dir: false,
                size: match e.size {
                    Some(n) => n,
                    None => 0,
                },
                remote_id: clone_opt(&e.id),
                mime_type: clone_opt(&e.mime_type),
                exists_locally: false,
                children,
            }
        };
        out.push(node);
        i = i + 1;
    }
    assert(nodes_view(out@) =~= remote_nodes(entries@, path@));
    out
}

/// The path of the entry `name` listed in the remote folder `path`.
pub fn remote_child_path(path: &str, name: &str) -> (r: String)
    ensures
        r@ == child_path(path@, name@),
{
    child_path_exec(path, name)
}


/// The error of a listing request answered with `status`: none for a 2xx status; else the
/// status with its reason, then the body the server sent.
pub fn listing_status_error(status: u16, body: &str) -> (r: Option<String>)
    requires
        100 <= status <= 999,
    ensures
        200 <= status <= 299 ==> r is None,
        !(200 <= status <= 299) ==> (r matches Some(e) && e@ == "TelDrive API 返回 "@ + decimal(status as nat)
            + " "@ + spec_status_reason(status) + ": "@ + body@),
{
    if 200 <= status && status <= 299 {
        None
    } else {
        let text = status_text(status);
        let head = concat3("TelDrive API 返回 ", text.as_str(), ": ");
        let r = concat2(head.as_str(), body);
        assert(r@ =~= "TelDrive API 返回 "@ + decimal(status as nat) + " "@ + spec_status_reason(status) + ": "@ + body@);
        Some(r)
    }
}


/// The listed entry reached by `route`: one index per level, descending only into folders.
pub open spec fn listed_at(es: Seq<RemoteEntry>, route: Seq<int>) -> Option<RemoteEntry>
    decreases route.len(),
{
    if route.len() == 0 || !(0 <= route[0] < es.len()) {
        None
    } else if route.len() == 1 {
        Some(es[route[0]])
    } else if es[route[0]].file_type@ == "folder"@ {
        listed_at(es[route[0]].children@, route.drop_first())
    } else {
        None
    }
}

/// The tree node reached by `route`: one child index per level.
pub open spec fn tree_node_at(ns: Seq<NodeView>, route: Seq<int>) -> Option<NodeView>
    decreases route.len(),
{
    if route.len() == 0 || !(0 <= route[0] < ns.len()) {
        None
    } else if route.len() == 1 {
        Some(ns[route[0]])
    } else {
        tree_node_at(ns[route[0]].children, route.drop_first())
    }
}

/// The remote tree has the listings' shape and keeps what each entry says of itself: the
/// node at any position carries that entry's server id (files as well as folders), its name,
/// and whether it is a folder, and it is not yet marked as present locally.
pub proof fn remote_tree_keeps_entries(es: Seq<RemoteEntry>, path: Seq<char>, route: Seq<int>)
    ensures
        listed_at(es, route) matches Some(e) ==> (tree_node_at(remote_nodes(es, path), route) matches Some(n)
            && n.remote_id == opt_str_view(e.id) && n.name == e.name@ && n.is_dir == (e.file_type@
            == "folder"@) && !n.exists_locally),
    decreases route.len(),
{
    if route.len() > 1 && 0 <= route[0] < es.len() && es[route[0]].file_type@ == "folder"@ {
        let e0 = es[route[0]];
        let p = child_path(path, e0.name@);
        remote_tree_keeps_entries(e0.children@, p, route.drop_first());
        assert(remote_nodes(es, path)[route[0]] == remote_node(e0, path));
    }
}

} // verus!

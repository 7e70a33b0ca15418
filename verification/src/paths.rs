//! Path handling as `std::path` does it, over the chars of a path: the Unix rules, and on
//! Windows the same rules with `\` read as a separator too (the `_on` functions, which take
//! the platform). Windows prefixes are read as components: a drive `C:` as a first component,
//! `\\server\share` and `\\?\C:` as a root followed by components. Paths of the same form
//! (such as two canonical paths) compare as `std::path` compares them.
use vstd::prelude::*;
use crate::text::{chars_of, concat2, concat3, string_of, trim, trim_span};
use crate::outside::push_char;

verus! {

pub open spec fn cviews(v: Seq<Vec<char>>) -> Seq<Seq<char>> {
    v.map_values(|x: Vec<char>| x@)
}

/// The index of the first `/` at or after `i`, or the length when there is none.
pub open spec fn next_sep(s: Seq<char>, i: int) -> int
    decreases s.len() - i,
{
    if i >= s.len() {
        s.len() as int
    } else if s[i] == '/' {
        i
    } else {
        next_sep(s, i + 1)
    }
}

pub proof fn lemma_next_sep(s: Seq<char>, i: int)
    requires
        0 <= i <= s.len(),
    ensures
        i <= next_sep(s, i) <= s.len(),
        next_sep(s, i) < s.len() ==> s[next_sep(s, i)] == '/',
        forall|k: int| i <= k < next_sep(s, i) ==> s[k] != '/',
    decreases s.len() - i,
{
    if i < s.len() && s[i] != '/' {
        lemma_next_sep(s, i + 1);
    }
}

/// The pieces of `s[i..]` between `/` separators, empty ones included (`str::split('/')`).
pub open spec fn pieces_at(s: Seq<char>, i: int) -> Seq<Seq<char>>
    decreases s.len() - i,
{
    if i < 0 || i > s.len() {
        Seq::empty()
    } else {
        let j = next_sep(s, i);
        proof {
            lemma_next_sep(s, i);
        }
        seq![s.subrange(i, j)] + if j < s.len() {
            pieces_at(s, j + 1)
        } else {
            Seq::<Seq<char>>::empty()
        }
    }
}

/// The pieces of `ps` that name something: not empty, and (when `drop_dots`) not `.`.
pub open spec fn keep_pieces(ps: Seq<Seq<char>>, drop_dots: bool) -> Seq<Seq<char>>
    decreases ps.len(),
{
    if ps.len() == 0 {
        Seq::empty()
    } else {
        (if ps[0].len() > 0 && !(drop_dots && ps[0] == seq!['.']) {
            seq![ps[0]]
        } else {
            Seq::<Seq<char>>::empty()
        }) + keep_pieces(ps.drop_first(), drop_dots)
    }
}

/// The kept pieces of `v[start..]`, in order.
pub fn kept_pieces(v: &Vec<char>, start: usize, drop_dots: bool) -> (r: Vec<Vec<char>>)
    requires
        start <= v@.len(),
    ensures
        cviews(r@) == keep_pieces(pieces_at(v@, start as int), drop_dots),
{
    let mut out: Vec<Vec<char>> = Vec::new();
    let mut i = start;
    loop
        invariant
            start <= i <= v@.len(),
            keep_pieces(pieces_at(v@, start as int), drop_dots) == cviews(out@) + keep_pieces(
                pieces_at(v@, i as int),
                drop_dots,
            ),
        decreases v@.len() - i,
    {
        let mut j = i;
        proof {
            lemma_next_sep(v@, i as int);
        }
        while j < v.len() && v[j] != '/'
            invariant
                i <= j <= v@.len(),
                next_sep(v@, i as int) == next_sep(v@, j as int),
            decreases v@.len() - j,
        {
            j = j + 1;
        }
        let ghost piece = v@.subrange(i as int, j as int);
        let ghost rest = if j < v@.len() {
            pieces_at(v@, j + 1)
        } else {
            Seq::<Seq<char>>::empty()
        };
        assert(pieces_at(v@, i as int) == seq![piece] + rest);
        assert((seq![piece] + rest).drop_first() =~= rest);
        assert((seq![piece] + rest)[0] == piece);
        let keep = j > i && !(drop_dots && j == i + 1 && v[i] == '.');
        proof {
            if j == i + 1 {
                if v@[i as int] == '.' {
                    assert(piece =~= seq!['.']);
                } else {
                    assert(piece[0] != seq!['.'][0]);
                }
            } else if j > i + 1 {
                assert(piece.len() != 1);
            }
        }
        let ghost before = cviews(out@);
        if keep {
            let mut p: Vec<char> = Vec::new();
            let mut k = i;
            while k < j
                invariant
                    i <= k <= j <= v@.len(),
                    p@ == v@.subrange(i as int, k as int),
                decreases j - k,
            {
                p.push(v[k]);
                k = k + 1;
                assert(p@ =~= v@.subrange(i as int, k as int));
            }
            out.push(p);
            assert(cviews(out@) =~= before + seq![piece]);
        } else {
            assert(cviews(out@) =~= before + Seq::<Seq<char>>::empty());
        }
        if j == v.len() {
            assert(keep_pieces(Seq::<Seq<char>>::empty(), drop_dots) =~= Seq::<Seq<char>>::empty());
            assert(cviews(out@) + Seq::<Seq<char>>::empty() =~= cviews(out@));
            return out;
        }
        i = j + 1;
    }
}

/// The pieces joined with `/` between them.
pub open spec fn join_slash(ps: Seq<Seq<char>>) -> Seq<char>
    decreases ps.len(),
{
    if ps.len() == 0 {
        Seq::empty()
    } else if ps.len() == 1 {
        ps[0]
    } else {
        join_slash(ps.drop_last()) + seq!['/'] + ps.last()
    }
}

pub fn join_with_slash(ps: &Vec<Vec<char>>) -> (r: String)
    ensures
        r@ == join_slash(cviews(ps@)),
{
    let mut r = String::new();
    let mut i: usize = 0;
    while i < ps.len()
        invariant
            i <= ps@.len(),
            r@ == join_slash(cviews(ps@).subrange(0, i as int)),
        decreases ps@.len() - i,
    {
        let ghost before = r@;
        if i > 0 {
            push_char(&mut r, '/');
        }
        let piece = &ps[i];
        let mut k: usize = 0;
        while k < piece.len()
            invariant
                k <= piece@.len(),
                r@ == (if i > 0 { before + seq!['/'] } else { before }) + piece@.subrange(0, k as int),
            decreases piece@.len() - k,
        {
            push_char(&mut r, piece[k]);
            k = k + 1;
            assert(piece@.subrange(0, k as int) =~= piece@.subrange(0, k - 1).push(piece@[k - 1]));
        }
        i = i + 1;
        let ghost sub = cviews(ps@).subrange(0, i as int);
        assert(sub.drop_last() =~= cviews(ps@).subrange(0, i - 1));
        assert(piece@.subrange(0, k as int) =~= piece@);
        if i == 1 {
            assert(before.len() == 0);
            assert(r@ =~= sub[0]);
        } else {
            assert(r@ =~= join_slash(sub.drop_last()) + seq!['/'] + sub.last());
        }
    }
    assert(cviews(ps@).subrange(0, ps@.len() as int) =~= cviews(ps@));
    r
}

/// Whether a request path names a place below the sync folder, and which: trimmed, not
/// absolute, no `..` component, not empty once `.` components are dropped. The answer is the
/// path rebuilt from its named components, joined with `/`.
pub open spec fn relative_request_path(raw: Seq<char>) -> Option<Seq<char>> {
    let t = trim(raw);
    let ps = keep_pieces(pieces_at(t, 0), true);
    if t.len() == 0 || t[0] == '/' || ps.contains(seq!['.', '.']) || ps.len() == 0 {
        None
    } else {
        Some(join_slash(ps))
    }
}

fn checked_relative_path(raw: &str) -> (r: Result<String, String>)
    ensures
        match relative_request_path(raw@) {
            Some(p) => r matches Ok(s) && s@ == p,
            None => r matches Err(e) && e@ == "目标路径非法"@,
        },
{
    let v = chars_of(raw);
    let (a, b) = trim_span(&v);
    let t = string_of(&v, a, b);
    let tv = chars_of(t.as_str());
    if tv.len() == 0 || tv[0] == '/' {
        return Err("目标路径非法".to_owned());
    }
    let ps = kept_pieces(&tv, 0, true);
    let ghost psv = cviews(ps@);
    let mut i: usize = 0;
    while i < ps.len()
        invariant
            i <= ps@.len(),
            psv == cviews(ps@),
            psv == keep_pieces(pieces_at(trim(raw@), 0), true),
            forall|k: int| 0 <= k < i ==> psv[k] != seq!['.', '.'],
        decreases ps@.len() - i,
    {
        if ps[i].len() == 2 && ps[i][0] == '.' && ps[i][1] == '.' {
            assert(psv[i as int] =~= seq!['.', '.']);
            assert(psv.contains(seq!['.', '.']));
            return Err("目标路径非法".to_owned());
        }
        assert(psv[i as int] != seq!['.', '.']);
        i = i + 1;
    }
    assert(!psv.contains(seq!['.', '.']));
    if ps.len() == 0 {
        return Err("目标路径非法".to_owned());
    }
    Ok(join_with_slash(&ps))
}


/// The path starts at the root.
pub open spec fn has_root(p: Seq<char>) -> bool {
    p.len() > 0 && p[0] == '/'
}

/// A relative path that starts with a `.` component.
pub open spec fn has_cur_dir(p: Seq<char>) -> bool {
    !has_root(p) && p.len() > 0 && p[0] == '.' && (p.len() == 1 || p[1] == '/')
}

/// Where the components after the root or the leading `.` begin.
pub open spec fn body_start(p: Seq<char>) -> int {
    if has_root(p) || has_cur_dir(p) {
        1
    } else {
        0
    }
}

/// The last `/` in `p[start..end]`, or -1.
pub open spec fn last_sep_before(p: Seq<char>, end: int, start: int) -> int
    decreases end - start,
{
    if end <= start {
        -1
    } else if p[end - 1] == '/' {
        end - 1
    } else {
        last_sep_before(p, end - 1, start)
    }
}

pub proof fn lemma_last_sep(p: Seq<char>, end: int, start: int)
    ensures
        last_sep_before(p, end, start) == -1 || start <= last_sep_before(p, end, start) < end,
    decreases end - start,
{
    if end > start && p[end - 1] != '/' {
        lemma_last_sep(p, end - 1, start);
    }
}

pub open spec fn last_sep(p: Seq<char>) -> int {
    last_sep_before(p, p.len() as int, body_start(p))
}

/// The last piece of the body: what follows its last `/`.
pub open spec fn last_piece(p: Seq<char>) -> Seq<char> {
    let k = last_sep(p);
    if k < 0 {
        p.subrange(body_start(p), p.len() as int)
    } else {
        p.subrange(k + 1, p.len() as int)
    }
}

/// `p` without its last piece and the `/` before it.
pub open spec fn drop_last_piece(p: Seq<char>) -> Seq<char> {
    let k = last_sep(p);
    if k < 0 {
        p.subrange(0, body_start(p))
    } else {
        p.subrange(0, k)
    }
}

/// `p` without trailing `/` and trailing `.` components.
pub open spec fn strip_back(p: Seq<char>) -> Seq<char>
    decreases p.len(),
{
    if p.len() > body_start(p) && (last_piece(p).len() == 0 || last_piece(p) == seq!['.']) {
        proof {
            lemma_last_sep(p, p.len() as int, body_start(p));
        }
        strip_back(drop_last_piece(p))
    } else {
        p
    }
}

/// `Path::parent`: the path without its last component; `None` for the root and for the
/// empty path.
pub open spec fn parent_of(p: Seq<char>) -> Option<Seq<char>> {
    let q = strip_back(p);
    if q.len() > body_start(q) {
        Some(strip_back(drop_last_piece(q)))
    } else if has_root(p) {
        None
    } else if has_cur_dir(q) {
        Some(Seq::empty())
    } else {
        None
    }
}

/// `Path::file_name`: the last component when it is a name (not `..`, `.` or the root).
pub open spec fn file_name_of(p: Seq<char>) -> Option<Seq<char>> {
    let q = strip_back(p);
    if q.len() > body_start(q) && last_piece(q) != seq!['.', '.'] {
        Some(last_piece(q))
    } else {
        None
    }
}

fn body_start_exec(v: &Vec<char>, end: usize) -> (r: usize)
    requires
        end <= v@.len(),
    ensures
        r as int == body_start(v@.subrange(0, end as int)),
        r <= end,
{
    let ghost p = v@.subrange(0, end as int);
    if end > 0 && v[0] == '/' {
        1
    } else if end > 0 && v[0] == '.' && (end == 1 || v[1] == '/') {
        assert(end > 1 ==> p[1] == v@[1]);
        1
    } else {
        assert(end > 1 ==> p[1] == v@[1]);
        0
    }
}

fn last_sep_exec(v: &Vec<char>, end: usize, start: usize) -> (r: Option<usize>)
    requires
        end <= v@.len(),
    ensures
        match r {
            Some(k) => last_sep_before(v@.subrange(0, end as int), end as int, start as int)
                == k as int && start <= k < end,
            None => last_sep_before(v@.subrange(0, end as int), end as int, start as int) == -1,
        },
{
    let ghost p = v@.subrange(0, end as int);
    let mut e = end;
    while e > start
        invariant
            e <= end <= v@.len(),
            p == v@.subrange(0, end as int),
            last_sep_before(p, end as int, start as int) == last_sep_before(p, e as int, start as int),
        decreases e,
    {
        if v[e - 1] == '/' {
            assert(p[e - 1] == v@[e - 1]);
            return Some(e - 1);
        }
        assert(p[e - 1] == v@[e - 1]);
        e = e - 1;
    }
    None
}

/// The last piece of `v[0..end]` as `v[a..end]`, and the length of what remains once it and
/// its separator are dropped.
fn last_piece_span(v: &Vec<char>, end: usize) -> (r: (usize, usize))
    requires
        end <= v@.len(),
    ensures
        r.0 <= end,
        r.1 <= end,
        v@.subrange(r.0 as int, end as int) == last_piece(v@.subrange(0, end as int)),
        v@.subrange(0, r.1 as int) == drop_last_piece(v@.subrange(0, end as int)),
{
    let ghost p = v@.subrange(0, end as int);
    let bs = body_start_exec(v, end);
    match last_sep_exec(v, end, bs) {
        Some(k) => {
            assert(v@.subrange(k + 1, end as int) =~= p.subrange(k + 1, p.len() as int));
            assert(v@.subrange(0, k as int) =~= p.subrange(0, k as int));
            (k + 1, k)
        },
        None => {
            assert(v@.subrange(bs as int, end as int) =~= p.subrange(bs as int, p.len() as int));
            assert(v@.subrange(0, bs as int) =~= p.subrange(0, bs as int));
            (bs, bs)
        },
    }
}

/// The length of `strip_back(v[0..end])`, a prefix of `v`.
fn strip_back_end(v: &Vec<char>, end: usize) -> (r: usize)
    requires
        end <= v@.len(),
    ensures
        r <= end,
        v@.subrange(0, r as int) == strip_back(v@.subrange(0, end as int)),
{
    let mut cur = end;
    loop
        invariant
            cur <= end <= v@.len(),
            strip_back(v@.subrange(0, end as int)) == strip_back(v@.subrange(0, cur as int)),
        decreases cur,
    {
        let ghost p = v@.subrange(0, cur as int);
        let bs = body_start_exec(v, cur);
        if cur <= bs {
            return cur;
        }
        let (a, d) = last_piece_span(v, cur);
        let is_empty = a == cur;
        let is_dot = a < cur && cur - a == 1 && v[a] == '.';
        proof {
            let lp = last_piece(p);
            assert(lp == v@.subrange(a as int, cur as int));
            if a + 1 == cur {
                if v@[a as int] == '.' {
                    assert(lp =~= seq!['.']);
                } else {
                    assert(lp[0] != seq!['.'][0]);
                }
            } else {
                assert(lp.len() != 1);
            }
            lemma_last_sep(p, p.len() as int, body_start(p));
        }
        if !(is_empty || is_dot) {
            return cur;
        }
        assert(drop_last_piece(p).len() < p.len());
        cur = d;
    }
}

/// The prefix of `v` of length `n` as a string.
fn prefix_string(v: &Vec<char>, n: usize) -> (r: String)
    requires
        n <= v@.len(),
    ensures
        r@ == v@.subrange(0, n as int),
{
    string_of(v, 0, n)
}

/// `Path::parent` on Unix.
pub fn path_parent(path: &str) -> (r: Option<String>)
    ensures
        match r {
            Some(s) => parent_of(path@) == Some(s@),
            None => parent_of(path@) is None,
        },
{
    let v = chars_of(path);
    assert(v@.subrange(0, v@.len() as int) =~= v@);
    let q = strip_back_end(&v, v.len());
    let ghost qs = v@.subrange(0, q as int);
    let bs = body_start_exec(&v, q);
    if q > bs {
        let (_a, d) = last_piece_span(&v, q);
        let e = strip_back_end(&v, d);
        Some(prefix_string(&v, e))
    } else if v.len() > 0 && v[0] == '/' {
        None
    } else if q > 0 && v[0] == '.' && (q == 1 || v[1] == '/') {
        assert(qs[0] == v@[0]);
        assert(q > 1 ==> qs[1] == v@[1]);
        Some(String::new())
    } else {
        assert(q > 0 ==> qs[0] == v@[0]);
        assert(q > 1 ==> qs[1] == v@[1]);
        None
    }
}

/// `Path::file_name` on Unix.
pub fn path_file_name(path: &str) -> (r: Option<String>)
    ensures
        match r {
            Some(s) => file_name_of(path@) == Some(s@),
            None => file_name_of(path@) is None,
        },
{
    let v = chars_of(path);
    assert(v@.subrange(0, v@.len() as int) =~= v@);
    let q = strip_back_end(&v, v.len());
    let bs = body_start_exec(&v, q);
    if q > bs {
        let (a, _d) = last_piece_span(&v, q);
        let is_dotdot = a < q && q - a == 2 && v[a] == '.' && v[a + 1] == '.';
        proof {
            let lp = v@.subrange(a as int, q as int);
            if a + 2 == q {
                if v@[a as int] == '.' && v@[a + 1] == '.' {
                    assert(lp =~= seq!['.', '.']);
                } else if v@[a as int] != '.' {
                    assert(lp[0] != seq!['.', '.'][0]);
                } else {
                    assert(lp[1] != seq!['.', '.'][1]);
                }
            } else {
                assert(lp.len() != 2);
            }
        }
        if is_dotdot {
            None
        } else {
            Some(string_of(&v, a, q))
        }
    } else {
        None
    }
}

/// `Path::components`, each written as text: `/` for the root, `.` for a leading current
/// folder, the name itself (or `..`) for the others.
pub open spec fn components(p: Seq<char>) -> Seq<Seq<char>> {
    (if has_root(p) {
        seq![seq!['/']]
    } else {
        Seq::<Seq<char>>::empty()
    }) + (if has_cur_dir(p) {
        seq![seq!['.']]
    } else {
        Seq::<Seq<char>>::empty()
    }) + keep_pieces(pieces_at(p, body_start(p)), true)
}

/// `Path::starts_with`: the components of `base` begin the components of `p`.
pub open spec fn path_starts_with(p: Seq<char>, base: Seq<char>) -> bool {
    let a = components(p);
    let b = components(base);
    b.len() <= a.len() && a.subrange(0, b.len() as int) == b
}

fn components_exec(path: &str) -> (r: Vec<Vec<char>>)
    ensures
        cviews(r@) == components(path@),
{
    let v = chars_of(path);
    assert(v@.subrange(0, v@.len() as int) =~= v@);
    let bs = body_start_exec(&v, v.len());
    let mut r: Vec<Vec<char>> = Vec::new();
    if v.len() > 0 && v[0] == '/' {
        let root: Vec<char> = vec!['/'];
        assert(root@ =~= seq!['/']);
        r.push(root);
    } else if bs == 1 {
        let cur: Vec<char> = vec!['.'];
        assert(cur@ =~= seq!['.']);
        r.push(cur);
    }
    let ghost head = cviews(r@);
    assert(head =~= (if has_root(v@) {
        seq![seq!['/']]
    } else {
        Seq::<Seq<char>>::empty()
    }) + (if has_cur_dir(v@) {
        seq![seq!['.']]
    } else {
        Seq::<Seq<char>>::empty()
    }));
    let mut rest = kept_pieces(&v, bs, true);
    r.append(&mut rest);
    assert(cviews(r@) =~= components(path@));
    r
}

fn seq_of_seq_eq(a: &Vec<char>, b: &Vec<char>) -> (r: bool)
    ensures
        r == (a@ == b@),
{
    if a.len() != b.len() {
        return false;
    }
    let mut k: usize = 0;
    while k < a.len()
        invariant
            a@.len() == b@.len(),
            k <= a@.len(),
            forall|t: int| 0 <= t < k ==> a@[t] == b@[t],
        decreases a@.len() - k,
    {
        if a[k] != b[k] {
            return false;
        }
        k = k + 1;
    }
    assert(a@ =~= b@);
    true
}

/// `Path::starts_with` on Unix paths.
pub fn path_starts_with_exec(path: &str, base: &str) -> (r: bool)
    ensures
        r == path_starts_with(path@, base@),
{
    let a = components_exec(path);
    let b = components_exec(base);
    let ghost av = cviews(a@);
    let ghost bv = cviews(b@);
    if b.len() > a.len() {
        return false;
    }
    let mut k: usize = 0;
    while k < b.len()
        invariant
            b@.len() <= a@.len(),
            av == cviews(a@),
            bv == cviews(b@),
            av == components(path@),
            bv == components(base@),
            k <= b@.len(),
            forall|t: int| 0 <= t < k ==> av[t] == bv[t],
        decreases b@.len() - k,
    {
        if !seq_of_seq_eq(&a[k], &b[k]) {
            assert(av.subrange(0, bv.len() as int)[k as int] != bv[k as int]);
            return false;
        }
        k = k + 1;
    }
    assert(av.subrange(0, bv.len() as int) =~= bv);
    true
}

/// `PathBuf::push` on Unix: an absolute `b` replaces `a`; otherwise `b` follows `a`, with a
/// `/` between them unless `a` is empty or already ends with one.
pub open spec fn path_join(a: Seq<char>, b: Seq<char>) -> Seq<char> {
    if has_root(b) {
        b
    } else if a.len() > 0 && a.last() != '/' {
        a + seq!['/'] + b
    } else {
        a + b
    }
}

pub fn path_join_exec(a: &str, b: &str) -> (r: String)
    ensures
        r@ == path_join(a@, b@),
{
    let av = chars_of(a);
    let bv = chars_of(b);
    proof {
        reveal_strlit("/");
    }
    if bv.len() > 0 && bv[0] == '/' {
        b.to_owned()
    } else if av.len() > 0 && av[av.len() - 1] != '/' {
        concat3(a, "/", b)
    } else {
        concat2(a, b)
    }
}

/// The files that aria2 keeps for a download at `p`: the file itself, its `.aria2` control
/// file and its `.aria2__temp` file.
pub open spec fn related_paths(p: Seq<char>) -> Seq<Seq<char>> {
    seq![p, p + ".aria2"@, p + ".aria2__temp"@]
}

pub open spec fn strings_view(v: Seq<String>) -> Seq<Seq<char>> {
    v.map_values(|s: String| s@)
}

pub fn tracked_aria2_related_paths(file_path: &str) -> (r: Vec<String>)
    ensures
        strings_view(r@) == related_paths(file_path@),
{
    let mut r: Vec<String> = Vec::new();
    r.push(file_path.to_owned());
    r.push(concat2(file_path, ".aria2"));
    r.push(concat2(file_path, ".aria2__temp"));
    assert(strings_view(r@) =~= related_paths(file_path@));
    r
}

/// Where a self-update stages the new program and keeps the old one: `<name>.update.tmp` and
/// `<name>.bak` beside the program; an error when the program path has no file name or no
/// folder.
pub open spec fn artifact_paths(exe: Seq<char>, windows: bool) -> Result<(Seq<char>, Seq<char>), Seq<char>> {
    match file_name_on(windows, exe) {
        None => Err("无法确定当前程序文件名"@),
        Some(name) => match parent_on(windows, exe) {
            None => Err("无法确定当前程序目录"@),
            Some(dir) => Ok(
                (path_join_on(windows, dir, name + ".update.tmp"@), path_join_on(windows, dir, name + ".bak"@)),
            ),
        },
    }
}

pub fn update_artifact_paths(exe_path: &str, windows: bool) -> (r: Result<(String, String), String>)
    ensures
        match artifact_paths(exe_path@, windows) {
            Ok(p) => r matches Ok(q) && q.0@ == p.0 && q.1@ == p.1,
            Err(e) => r matches Err(m) && m@ == e,
        },
{
    let name = match path_file_name_on(windows, exe_path) {
        Some(n) => n,
        None => return Err("无法确定当前程序文件名".to_owned()),
    };
    let dir = match path_parent_on(windows, exe_path) {
        Some(d) => d,
        None => return Err("无法确定当前程序目录".to_owned()),
    };
    let tmp = concat2(name.as_str(), ".update.tmp");
    let bak = concat2(name.as_str(), ".bak");
    Ok((path_join_on_exec(windows, dir.as_str(), tmp.as_str()), path_join_on_exec(windows, dir.as_str(), bak.as_str())))
}

/// Where a delete request would act: below the sync folder's canonical path `root`, the
/// checked request path joined onto it; with the folder that must lie inside the sync folder
/// when nothing is there yet.
pub struct TargetCandidate {
    pub joined: String,
    pub parent: Option<String>,
}

pub open spec fn candidate_spec(root: Seq<char>, raw: Seq<char>, windows: bool) -> Option<(Seq<char>, Option<Seq<char>>)> {
    match relative_request_path_on(raw, windows) {
        None => None,
        Some(rel) => {
            let joined = path_join_on(windows, root, rel);
            Some((joined, parent_on(windows, joined)))
        },
    }
}

pub fn target_candidate(root: &str, raw_path: &str, windows: bool) -> (r: Result<TargetCandidate, String>)
    ensures
        match candidate_spec(root@, raw_path@, windows) {
            Some(c) => r matches Ok(t) && t.joined@ == c.0 && crate::outside::opt_str_view(t.parent) == c.1,
            None => r matches Err(e) && e@ == "目标路径非法"@,
        },
{
    let relative = validate_relative_request_path(raw_path, windows)?;
    let joined = path_join_on_exec(windows, root, relative.as_str());
    let parent = path_parent_on(windows, joined.as_str());
    Ok(TargetCandidate { joined, parent })
}

/// What the file system said about a delete target.
pub enum TargetProbe {
    /// Something is there; its canonical path, if it could be resolved.
    Exists(Option<String>),
    /// Nothing is there; the canonical path of its folder, if it could be resolved.
    Absent(Option<String>),
}

/// The verdict on a delete target: an existing target counts by its canonical path, an
/// absent one by its folder's, and either must lie inside the sync folder `root`; the answer
/// is the canonical path of an existing target, the joined path of an absent one.
pub open spec fn target_verdict(root: Seq<char>, joined: Seq<char>, probe: TargetProbe, windows: bool) -> Result<Seq<char>, Seq<char>> {
    match probe {
        TargetProbe::Exists(Some(t)) => if path_starts_with_on(windows, t@, root) {
            Ok(t@)
        } else {
            Err("目标路径非法"@)
        },
        TargetProbe::Absent(Some(p)) => if path_starts_with_on(windows, p@, root) {
            Ok(joined)
        } else {
            Err("目标路径非法"@)
        },
        _ => Err("目标路径非法"@),
    }
}

pub fn accept_target(root: &str, candidate: &TargetCandidate, probe: TargetProbe, windows: bool) -> (r: Result<String, String>)
    ensures
        crate::config::res_view(r) == target_verdict(root@, candidate.joined@, probe, windows),
{
    match probe {
        TargetProbe::Exists(Some(t)) => {
            if path_starts_with_on_exec(windows, t.as_str(), root) {
                Ok(t)
            } else {
                Err("目标路径非法".to_owned())
            }
        },
        TargetProbe::Absent(Some(p)) => {
            if path_starts_with_on_exec(windows, p.as_str(), root) {
                Ok(candidate.joined.clone())
            } else {
                Err("目标路径非法".to_owned())
            }
        },
        _ => Err("目标路径非法".to_owned()),
    }
}

/// `Path`'s `==`: the same components.
pub open spec fn same_path(a: Seq<char>, b: Seq<char>) -> bool {
    components(a) == components(b)
}

pub fn same_path_exec(a: &str, b: &str) -> (r: bool)
    ensures
        r == same_path(a@, b@),
{
    let x = components_exec(a);
    let y = components_exec(b);
    let ghost xv = cviews(x@);
    let ghost yv = cviews(y@);
    if x.len() != y.len() {
        return false;
    }
    let mut k: usize = 0;
    while k < x.len()
        invariant
            x@.len() == y@.len(),
            xv == cviews(x@),
            yv == cviews(y@),
            xv == components(a@),
            yv == components(b@),
            k <= x@.len(),
            forall|t: int| 0 <= t < k ==> xv[t] == yv[t],
        decreases x@.len() - k,
    {
        if !seq_of_seq_eq(&x[k], &y[k]) {
            assert(xv[k as int] != yv[k as int]);
            return false;
        }
        k = k + 1;
    }
    assert(xv =~= yv);
    true
}

/// Whether a path counts as inside the sync folder, from what canonicalisation gave: the
/// sync folder's canonical path (`None`: it could not be resolved), the path's own, and, when
/// the path itself could not be resolved, its folder's.
pub open spec fn within_root(root: Option<Seq<char>>, target: Option<Seq<char>>, parent: Option<Seq<char>>, windows: bool) -> bool {
    match root {
        None => false,
        Some(r) => match target {
            Some(t) => path_starts_with_on(windows, t, r),
            None => match parent {
                Some(p) => path_starts_with_on(windows, p, r),
                None => false,
            },
        },
    }
}

pub fn path_within_root(root: Option<&str>, target: Option<&str>, parent: Option<&str>, windows: bool) -> (r: bool)
    ensures
        r == within_root(
            match root { Some(x) => Some(x@), None => None },
            match target { Some(x) => Some(x@), None => None },
            match parent { Some(x) => Some(x@), None => None },
            windows,
        ),
{
    match root {
        None => false,
        Some(r) => match target {
            Some(t) => path_starts_with_on_exec(windows, t, r),
            None => match parent {
                Some(p) => path_starts_with_on_exec(windows, p, r),
                None => false,
            },
        },
    }
}

/// Where the pruning of empty folders above a removed file stands.
pub enum CleanupState {
    /// The next folder up is to be canonicalised.
    Examine(String),
    /// The canonical folder whose entries are to be listed.
    Listing(String),
    /// Nothing more to do.
    Done,
}

/// What the file system answered.
pub enum CleanupEvent {
    /// The canonical path of the folder being examined, or `None` when it could not be resolved.
    Canonical(Option<String>),
    /// Whether the listed folder is empty, or `None` when it could not be listed.
    Listed(Option<bool>),
}

/// What to do next.
pub enum CleanupAction {
    /// Canonicalise the path that the next state names, or list it.
    Continue,
    /// Remove this empty folder (a failure is ignored), then go on.
    RemoveDir(String),
    /// Stop.
    Finish,
}

/// A pruning state as values.
pub enum PruneView {
    Examine(Seq<char>),
    Listing(Seq<char>),
    Done,
}

/// A file-system answer as values.
pub enum PruneAnswer {
    Canonical(Option<Seq<char>>),
    Listed(Option<bool>),
}

pub open spec fn state_view(s: CleanupState) -> PruneView {
    match s {
        CleanupState::Examine(p) => PruneView::Examine(p@),
        CleanupState::Listing(p) => PruneView::Listing(p@),
        CleanupState::Done => PruneView::Done,
    }
}

pub open spec fn answer_view(e: CleanupEvent) -> PruneAnswer {
    match e {
        CleanupEvent::Canonical(c) => PruneAnswer::Canonical(opt_view(c)),
        CleanupEvent::Listed(l) => PruneAnswer::Listed(l),
    }
}

/// The folder an action removes, if any.
pub open spec fn removed_view(a: CleanupAction) -> Option<Seq<char>> {
    match a {
        CleanupAction::RemoveDir(d) => Some(d@),
        _ => None,
    }
}

/// One pruning step as values: the next state and the folder removed, if any. A canonical
/// path strictly inside `root` is listed next; an empty listed folder is removed and its
/// parent examined; every other answer ends the walk.
pub open spec fn prune_next(root: Seq<char>, st: PruneView, ev: PruneAnswer, windows: bool) -> (PruneView, Option<Seq<char>>) {
    match (st, ev) {
        (PruneView::Examine(_), PruneAnswer::Canonical(Some(c))) => if same_path_on(windows, c, root)
            || !path_starts_with_on(windows, c, root) {
            (PruneView::Done, None)
        } else {
            (PruneView::Listing(c), None)
        },
        (PruneView::Listing(d), PruneAnswer::Listed(Some(true))) => (
            match parent_on(windows, d) {
                Some(p) => PruneView::Examine(p),
                None => PruneView::Done,
            },
            Some(d),
        ),
        _ => (PruneView::Done, None),
    }
}

/// Where a walk starts from a removed file: its folder, if it has one.
pub open spec fn prune_first(start: Seq<char>, windows: bool) -> PruneView {
    match parent_on(windows, start) {
        Some(p) => PruneView::Examine(p),
        None => PruneView::Done,
    }
}

/// The folders a whole walk removes, in order, given the file system's answers in order.
pub open spec fn prune_run(root: Seq<char>, st: PruneView, answers: Seq<PruneAnswer>, windows: bool) -> Seq<Seq<char>>
    decreases answers.len(),
{
    if answers.len() == 0 || st is Done {
        Seq::empty()
    } else {
        let (next, removed) = prune_next(root, st, answers[0], windows);
        (match removed {
            Some(d) => seq![d],
            None => Seq::empty(),
        }) + prune_run(root, next, answers.drop_first(), windows)
    }
}

pub open spec fn prune_ok(root: Seq<char>, st: PruneView, windows: bool) -> bool {
    match st {
        PruneView::Listing(d) => path_starts_with_on(windows, d, root) && !same_path_on(windows, d, root),
        _ => true,
    }
}

proof fn lemma_prune_run_inside(root: Seq<char>, st: PruneView, answers: Seq<PruneAnswer>, windows: bool)
    requires
        prune_ok(root, st, windows),
    ensures
        forall|i: int| 0 <= i < prune_run(root, st, answers, windows).len() ==> path_starts_with_on(
            windows,
            #[trigger] prune_run(root, st, answers, windows)[i],
            root,
        ) && !same_path_on(windows, prune_run(root, st, answers, windows)[i], root),
    decreases answers.len(),
{
    if answers.len() > 0 && !(st is Done) {
        let (next, removed) = prune_next(root, st, answers[0], windows);
        lemma_prune_run_inside(root, next, answers.drop_first(), windows);
        let head: Seq<Seq<char>> = match removed {
            Some(d) => seq![d],
            None => Seq::empty(),
        };
        let rest = prune_run(root, next, answers.drop_first(), windows);
        let run = prune_run(root, st, answers, windows);
        assert(run == head + rest);
        assert forall|i: int| 0 <= i < run.len() implies path_starts_with_on(windows, #[trigger] run[i], root)
            && !same_path_on(windows, run[i], root) by {
            if i < head.len() {
                assert(run[i] == head[i]);
            } else {
                assert(run[i] == rest[i - head.len()]);
            }
        }
    }
}

/// Whatever the file system answers, a whole pruning walk from a removed file removes only
/// folders strictly inside the sync folder `root` (never `root` itself, nothing outside it),
/// each one only after it was listed as empty; the first other answer ends the walk.
pub proof fn pruning_walk_stays_inside(root: Seq<char>, start: Seq<char>, answers: Seq<PruneAnswer>, windows: bool)
    ensures
        forall|i: int| 0 <= i < prune_run(root, prune_first(start, windows), answers, windows).len() ==> {
            let d = #[trigger] prune_run(root, prune_first(start, windows), answers, windows)[i];
            path_starts_with_on(windows, d, root) && !same_path_on(windows, d, root)
        },
{
    lemma_prune_run_inside(root, prune_first(start, windows), answers, windows);
}

/// Pruning starts at the folder of the removed file.
pub fn cleanup_start(start: &str, windows: bool) -> (r: CleanupState)
    ensures
        state_view(r) == prune_first(start@, windows),
        match parent_on(windows, start@) {
            Some(p) => r matches CleanupState::Examine(q) && q@ == p,
            None => r is Done,
        },
{
    match path_parent_on(windows, start) {
        Some(p) => CleanupState::Examine(p),
        None => CleanupState::Done,
    }
}

/// A state that pruning below `root` can reach: a folder listed for removal lies strictly
/// inside the sync folder.
pub open spec fn cleanup_state_ok(root: Seq<char>, st: CleanupState, windows: bool) -> bool {
    match st {
        CleanupState::Listing(d) => path_starts_with_on(windows, d@, root) && !same_path_on(windows, d@, root),
        _ => true,
    }
}

/// One step of pruning empty folders below the canonical sync folder `root`: a folder is
/// listed only when its canonical path lies strictly inside `root`; an empty one is removed
/// and its own folder examined next; anything else stops the walk.
pub fn cleanup_step(root: &str, state: CleanupState, event: CleanupEvent, windows: bool) -> (r: (CleanupState, CleanupAction))
    requires
        cleanup_state_ok(root@, state, windows),
    ensures
        cleanup_state_ok(root@, r.0, windows),
        match (state, event) {
            (CleanupState::Examine(_), CleanupEvent::Canonical(Some(c))) => if same_path_on(windows, c@, root@)
                || !path_starts_with_on(windows, c@, root@) {
                r.0 is Done && r.1 is Finish
            } else {
                r.0 matches CleanupState::Listing(d) && d@ == c@ && r.1 is Continue
            },
            (CleanupState::Listing(d), CleanupEvent::Listed(Some(true))) => {
                &&& r.1 matches CleanupAction::RemoveDir(x) && x@ == d@
                &&& match parent_on(windows, d@) {
                    Some(p) => r.0 matches CleanupState::Examine(q) && q@ == p,
                    None => r.0 is Done,
                }
            },
            _ => r.0 is Done && r.1 is Finish,
        },
        r.1 matches CleanupAction::RemoveDir(x) ==> path_starts_with_on(windows, x@, root@) && !same_path_on(
            windows,
            x@,
            root@,
        ),
        prune_next(root@, state_view(state), answer_view(event), windows) == (state_view(r.0), removed_view(r.1)),
{
    match (state, event) {
        (CleanupState::Examine(_), CleanupEvent::Canonical(Some(c))) => {
            if same_path_on_exec(windows, c.as_str(), root) || !path_starts_with_on_exec(windows, c.as_str(), root) {
                (CleanupState::Done, CleanupAction::Finish)
            } else {
                (CleanupState::Listing(c), CleanupAction::Continue)
            }
        },
        (CleanupState::Listing(d), CleanupEvent::Listed(Some(true))) => {
            let next = match path_parent_on(windows, d.as_str()) {
                Some(p) => CleanupState::Examine(p),
                None => CleanupState::Done,
            };
            (next, CleanupAction::RemoveDir(d))
        },
        _ => (CleanupState::Done, CleanupAction::Finish),
    }
}

/// A request to delete what is at a path below the sync folder.
pub struct DeleteFileRequest {
    pub path: String,
}

/// What deleting a checked target does: a folder goes with all it holds; a file goes
/// together with the `.aria2` control file that a download may have left beside it.
pub enum DeletePlan {
    Folder(String),
    File { file: String, control_file: String },
}

pub fn plan_delete(target: &str, exists: bool, is_dir: bool) -> (r: Result<DeletePlan, String>)
    ensures
        !exists ==> (r matches Err(e) && e@ == "本地文件不存在"@),
        exists && is_dir ==> (r matches Ok(DeletePlan::Folder(p)) && p@ == target@),
        exists && !is_dir ==> (r matches Ok(DeletePlan::File { file, control_file }) && file@ == target@
            && control_file@ == target@ + ".aria2"@),
{
    if !exists {
        return Err("本地文件不存在".to_owned());
    }
    if is_dir {
        Ok(DeletePlan::Folder(target.to_owned()))
    } else {
        Ok(DeletePlan::File { file: target.to_owned(), control_file: concat2(target, ".aria2") })
    }
}

/// The error when removing the target failed, with the system's words.
pub fn delete_failure_message(is_dir: bool, err: &str) -> (r: String)
    ensures
        r@ == (if is_dir { "删除目录失败: "@ } else { "删除文件失败: "@ }) + err@,
{
    if is_dir {
        concat2("删除目录失败: ", err)
    } else {
        concat2("删除文件失败: ", err)
    }
}


proof fn lemma_next_sep_shift(s: Seq<char>, i: int, k: int)
    requires
        0 <= i <= k <= s.len(),
    ensures
        next_sep(s, k) == i + next_sep(s.subrange(i, s.len() as int), k - i),
    decreases s.len() - k,
{
    let t = s.subrange(i, s.len() as int);
    if k < s.len() && s[k] != '/' {
        assert(t[k - i] == s[k]);
        lemma_next_sep_shift(s, i, k + 1);
    } else if k < s.len() {
        assert(t[k - i] == s[k]);
    }
}

/// The pieces from `k` on depend only on the text from `k` on.
proof fn lemma_pieces_shift(s: Seq<char>, i: int, k: int)
    requires
        0 <= i <= k <= s.len(),
    ensures
        pieces_at(s, k) == pieces_at(s.subrange(i, s.len() as int), k - i),
    decreases s.len() - k,
{
    let t = s.subrange(i, s.len() as int);
    let j = next_sep(s, k);
    lemma_next_sep(s, k);
    lemma_next_sep_shift(s, i, k);
    assert(s.subrange(k, j) =~= t.subrange(k - i, j - i));
    if j < s.len() {
        lemma_pieces_shift(s, i, j + 1);
    }
}

/// Before the `/` that joins `a` to more text, separators are found as in `a` alone.
proof fn lemma_next_sep_joined(a: Seq<char>, b: Seq<char>, k: int)
    requires
        0 <= k <= a.len(),
    ensures
        next_sep(a + seq!['/'] + b, k) == next_sep(a, k),
    decreases a.len() - k,
{
    let u = a + seq!['/'] + b;
    if k < a.len() {
        assert(u[k] == a[k]);
        if a[k] != '/' {
            lemma_next_sep_joined(a, b, k + 1);
        }
    } else {
        assert(u[k] == '/');
    }
}

/// Splitting `a/b` at `/` gives the pieces of `a` followed by those of `b`.
proof fn lemma_pieces_joined(a: Seq<char>, b: Seq<char>, k: int)
    requires
        0 <= k <= a.len(),
    ensures
        pieces_at(a + seq!['/'] + b, k) == pieces_at(a, k) + pieces_at(b, 0),
    decreases a.len() - k,
{
    let u = a + seq!['/'] + b;
    let j = next_sep(a, k);
    lemma_next_sep(a, k);
    lemma_next_sep_joined(a, b, k);
    assert(u.subrange(k, j) =~= a.subrange(k, j));
    if j < a.len() {
        lemma_pieces_joined(a, b, j + 1);
        assert(pieces_at(a, k) == seq![a.subrange(k, j)] + pieces_at(a, j + 1));
        assert(pieces_at(u, k) == seq![u.subrange(k, j)] + pieces_at(u, j + 1));
        assert(pieces_at(u, k) =~= pieces_at(a, k) + pieces_at(b, 0));
    } else {
        lemma_pieces_shift(u, j + 1, j + 1);
        assert(u.subrange(j + 1, u.len() as int) =~= b);
        assert(pieces_at(u, k) == seq![u.subrange(k, j)] + pieces_at(u, j + 1));
        assert(pieces_at(a, k) == seq![a.subrange(k, j)]);
        assert(pieces_at(u, k) =~= pieces_at(a, k) + pieces_at(b, 0));
    }
}

proof fn lemma_keep_concat(x: Seq<Seq<char>>, y: Seq<Seq<char>>, d: bool)
    ensures
        keep_pieces(x + y, d) == keep_pieces(x, d) + keep_pieces(y, d),
    decreases x.len(),
{
    if x.len() == 0 {
        assert(x + y =~= y);
    } else {
        assert((x + y).drop_first() =~= x.drop_first() + y);
        lemma_keep_concat(x.drop_first(), y, d);
        assert(keep_pieces(x + y, d) =~= keep_pieces(x, d) + keep_pieces(y, d));
    }
}

/// Text without `/` is one piece.
proof fn lemma_pieces_of_name(x: Seq<char>)
    requires
        forall|k: int| 0 <= k < x.len() ==> x[k] != '/',
    ensures
        pieces_at(x, 0) == seq![x],
{
    lemma_next_sep(x, 0);
    if next_sep(x, 0) < x.len() {
        assert(x[next_sep(x, 0)] == '/');
    }
    assert(x.subrange(0, x.len() as int) =~= x);
}

/// Pieces that hold no `/`, joined with `/` and split again, come back unchanged.
proof fn lemma_split_join(ps: Seq<Seq<char>>)
    requires
        ps.len() > 0,
        forall|i: int, k: int| 0 <= i < ps.len() && 0 <= k < ps[i].len() ==> #[trigger] ps[i][k] != '/',
    ensures
        pieces_at(join_slash(ps), 0) == ps,
    decreases ps.len(),
{
    if ps.len() == 1 {
        lemma_pieces_of_name(ps[0]);
        assert(seq![ps[0]] =~= ps);
    } else {
        let init = ps.drop_last();
        assert forall|i: int, k: int| 0 <= i < init.len() && 0 <= k < init[i].len() implies #[trigger] init[i][k] != '/' by {
            assert(init[i] == ps[i]);
        }
        lemma_split_join(init);
        let last = ps.last();
        assert forall|k: int| 0 <= k < last.len() implies last[k] != '/' by {
            assert(ps[ps.len() - 1][k] != '/');
        }
        lemma_pieces_of_name(last);
        lemma_pieces_joined(join_slash(init), last, 0);
        assert(ps =~= init + seq![last]);
    }
}

/// No piece holds a `/`.
proof fn lemma_pieces_have_no_sep(s: Seq<char>, i: int)
    requires
        0 <= i <= s.len(),
    ensures
        forall|a: int, k: int| 0 <= a < pieces_at(s, i).len() && 0 <= k < pieces_at(s, i)[a].len() ==> #[trigger] pieces_at(s, i)[a][k] != '/',
    decreases s.len() - i,
{
    let j = next_sep(s, i);
    lemma_next_sep(s, i);
    let ps = pieces_at(s, i);
    if j < s.len() {
        lemma_pieces_have_no_sep(s, j + 1);
    }
    assert forall|a: int, k: int| 0 <= a < ps.len() && 0 <= k < ps[a].len() implies #[trigger] ps[a][k] != '/' by {
        if a == 0 {
            assert(ps[0] == s.subrange(i, j));
            assert(s[i + k] != '/');
        } else {
            assert(ps[a] == pieces_at(s, j + 1)[a - 1]);
        }
    }
}

/// Kept pieces are pieces of the input that name something.
proof fn lemma_keep_elements(ps: Seq<Seq<char>>, d: bool)
    ensures
        forall|a: int| 0 <= a < keep_pieces(ps, d).len() ==> (exists|b: int| 0 <= b < ps.len() && ps[b] == #[trigger] keep_pieces(ps, d)[a]),
        forall|a: int| 0 <= a < keep_pieces(ps, d).len() ==> (#[trigger] keep_pieces(ps, d)[a]).len() > 0 && !(d && keep_pieces(ps, d)[a] == seq!['.']),
    decreases ps.len(),
{
    if ps.len() > 0 {
        lemma_keep_elements(ps.drop_first(), d);
        let head: Seq<Seq<char>> = if ps[0].len() > 0 && !(d && ps[0] == seq!['.']) { seq![ps[0]] } else { Seq::empty() };
        let k = keep_pieces(ps, d);
        assert(k == head + keep_pieces(ps.drop_first(), d));
        assert forall|a: int| 0 <= a < k.len() implies (exists|b: int| 0 <= b < ps.len() && ps[b] == #[trigger] k[a]) by {
            if a < head.len() {
                assert(ps[0] == k[a]);
            } else {
                let rest = keep_pieces(ps.drop_first(), d);
                assert(k[a] == rest[a - head.len()]);
                let b = choose|b: int| 0 <= b < ps.drop_first().len() && ps.drop_first()[b] == rest[a - head.len()];
                assert(ps[b + 1] == k[a]);
            }
        }
        assert forall|a: int| 0 <= a < k.len() implies (#[trigger] k[a]).len() > 0 && !(d && k[a] == seq!['.']) by {
            if a >= head.len() {
                assert(k[a] == keep_pieces(ps.drop_first(), d)[a - head.len()]);
            }
        }
    }
}

/// Keeping pieces that all name something changes nothing.
proof fn lemma_keep_named(ps: Seq<Seq<char>>)
    requires
        forall|a: int| 0 <= a < ps.len() ==> (#[trigger] ps[a]).len() > 0 && ps[a] != seq!['.'],
    ensures
        keep_pieces(ps, true) == ps,
    decreases ps.len(),
{
    if ps.len() > 0 {
        assert forall|a: int| 0 <= a < ps.drop_first().len() implies (#[trigger] ps.drop_first()[a]).len() > 0 && ps.drop_first()[a] != seq!['.'] by {
            assert(ps.drop_first()[a] == ps[a + 1]);
        }
        lemma_keep_named(ps.drop_first());
        assert(keep_pieces(ps, true) =~= seq![ps[0]] + ps.drop_first());
    }
}

/// The components of `base` followed by more text after a `/`: those of `base`, then the
/// named pieces of the rest.
proof fn lemma_components_extend(base: Seq<char>, rest: Seq<char>)
    requires
        base.len() > 0,
    ensures
        components(base + seq!['/'] + rest) == components(base) + keep_pieces(pieces_at(rest, 0), true),
{
    let u = base + seq!['/'] + rest;
    assert(u[0] == base[0]);
    if base.len() > 1 {
        assert(u[1] == base[1]);
    } else {
        assert(u[1] == '/');
    }
    assert(has_root(u) == has_root(base));
    assert(has_cur_dir(u) == has_cur_dir(base));
    let bs = body_start(base);
    lemma_pieces_joined(base, rest, bs);
    lemma_keep_concat(pieces_at(base, bs), pieces_at(rest, 0), true);
}

proof fn lemma_keep_blank()
    ensures
        keep_pieces(seq![Seq::<char>::empty()], true) == Seq::<Seq<char>>::empty(),
{
    let b = seq![Seq::<char>::empty()];
    assert(b.drop_first() =~= Seq::<Seq<char>>::empty());
    assert(keep_pieces(b.drop_first(), true) =~= Seq::<Seq<char>>::empty());
    assert(keep_pieces(b, true) =~= Seq::<Seq<char>>::empty());
}

/// The joined pieces begin with the first piece's first char.
proof fn lemma_join_starts_with_first(ps: Seq<Seq<char>>)
    requires
        ps.len() > 0,
        ps[0].len() > 0,
    ensures
        join_slash(ps).len() > 0,
        join_slash(ps)[0] == ps[0][0],
        ps[0].len() > 1 ==> join_slash(ps).len() > 1 && join_slash(ps)[1] == ps[0][1],
    decreases ps.len(),
{
    if ps.len() > 1 {
        lemma_join_starts_with_first(ps.drop_last());
    }
}

/// A checked path's own components are its named pieces.
proof fn lemma_rel_components(ps: Seq<Seq<char>>, rel: Seq<char>)
    requires
        ps.len() > 0,
        rel == join_slash(ps),
        keep_pieces(pieces_at(rel, 0), true) == ps,
        forall|a: int| 0 <= a < ps.len() ==> (#[trigger] ps[a]).len() > 0 && ps[a] != seq!['.'],
        forall|i: int, k: int| 0 <= i < ps.len() && 0 <= k < ps[i].len() ==> #[trigger] ps[i][k] != '/',
    ensures
        components(rel) == ps,
{
    lemma_join_starts_with_first(ps);
    assert(ps[0][0] != '/');
    if has_cur_dir(rel) {
        if ps[0].len() == 1 {
            assert(ps[0] =~= seq!['.']);
        } else {
            assert(ps[0][1] != '/');
        }
    }
    assert(components(rel) =~= ps);
}

/// A checked request path stays below whatever folder it is joined onto: the joined path's
/// components are the folder's followed by the request's own, and each of those names an
/// entry (never empty, `.` or `..`).
pub proof fn checked_path_stays_below(root: Seq<char>, raw: Seq<char>)
    requires
        relative_request_path(raw) is Some,
    ensures
        ({
            let joined = path_join(root, relative_request_path(raw)->Some_0);
            let c = components(joined);
            &&& path_starts_with(joined, root)
            &&& forall|k: int| components(root).len() <= k < c.len() ==> (#[trigger] c[k]).len() > 0
                && c[k] != seq!['.'] && c[k] != seq!['.', '.']
        }),
{
    let t = trim(raw);
    lemma_pieces_have_no_sep(t, 0);
    let all = pieces_at(t, 0);
    let ps = keep_pieces(all, true);
    lemma_keep_elements(all, true);
    assert forall|i: int, k: int| 0 <= i < ps.len() && 0 <= k < ps[i].len() implies #[trigger] ps[i][k] != '/' by {
        let b = choose|b: int| 0 <= b < all.len() && all[b] == ps[i];
        assert(all[b][k] != '/');
    }
    let rel = join_slash(ps);
    assert(relative_request_path(raw) == Some(rel));
    lemma_split_join(ps);
    lemma_keep_named(ps);
    assert(keep_pieces(pieces_at(rel, 0), true) == ps);
    assert(!ps.contains(seq!['.', '.']));
    assert forall|a: int| 0 <= a < ps.len() implies (#[trigger] ps[a]).len() > 0 && ps[a] != seq!['.'] && ps[a] != seq!['.', '.'] by {
        if ps[a] == seq!['.', '.'] {
            assert(ps.contains(ps[a]));
        }
    }
    // The request path does not start at the root.
    assert(ps[0].len() > 0);
    let joined = path_join(root, rel);
    if root.len() == 0 {
        assert(joined == rel) by {
            if has_root(rel) {
                assert(rel[0] == ps[0][0]) by {
                    lemma_join_starts_with_first(ps);
                }
                assert(ps[0][0] != '/');
            }
        }
        assert(components(root) =~= Seq::<Seq<char>>::empty()) by {
            assert(next_sep(root, 0) == 0);
            assert(root.subrange(0, 0) =~= Seq::<char>::empty());
            assert(pieces_at(root, 0) =~= seq![Seq::<char>::empty()]);
            lemma_keep_blank();
        }
        let c = components(joined);
        assert(c.subrange(0, 0) =~= components(root));
        lemma_rel_components(ps, rel);
    } else {
        assert(!has_root(rel)) by {
            if has_root(rel) {
                lemma_join_starts_with_first(ps);
                assert(ps[0][0] != '/');
            }
        }
        if root.last() != '/' {
            assert(joined == root + seq!['/'] + rel);
            lemma_components_extend(root, rel);
        } else if root.len() == 1 {
            assert(joined =~= root + rel);
            let c = components(joined);
            assert(has_root(joined));
            assert(next_sep(root, 1) == 1);
            assert(root.subrange(1, 1) =~= Seq::<char>::empty());
            assert(pieces_at(root, 1) =~= seq![Seq::<char>::empty()]);
            lemma_keep_blank();
            assert(components(root) =~= seq![seq!['/']]);
            assert(joined.subrange(1, joined.len() as int) =~= rel);
            lemma_pieces_shift(joined, 1, 1);
            assert(c =~= seq![seq!['/']] + ps);
            assert(c.subrange(0, 1) =~= components(root));
        } else {
            let a = root.drop_last();
            assert(root =~= a + seq!['/'] + Seq::<char>::empty());
            assert(joined =~= a + seq!['/'] + rel);
            assert(a.len() > 0);
            lemma_components_extend(a, rel);
            lemma_components_extend(a, Seq::<char>::empty());
            assert(next_sep(Seq::<char>::empty(), 0) == 0);
            assert(Seq::<char>::empty().subrange(0, 0) =~= Seq::<char>::empty());
            assert(pieces_at(Seq::<char>::empty(), 0) =~= seq![Seq::<char>::empty()]);
            lemma_keep_blank();
            assert(components(root) =~= components(a));
            assert(components(joined) =~= components(a) + ps);
        }
        let c = components(joined);
        assert(c =~= components(root) + ps);
        assert(c.subrange(0, components(root).len() as int) =~= components(root));
    }
}


/// Whether two canonical paths name the same file: on Windows their text compared ignoring
/// ASCII case, elsewhere their components.
pub open spec fn same_file_on(windows: bool, a: Seq<char>, b: Seq<char>) -> bool {
    if windows {
        crate::text::ascii_lowercase(a) == crate::text::ascii_lowercase(b)
    } else {
        same_path(a, b)
    }
}

pub fn same_file_path(windows: bool, a: &str, b: &str) -> (r: bool)
    ensures
        r == same_file_on(windows, a@, b@),
{
    if windows {
        let x = crate::text::ascii_lowercase_str(a);
        let y = crate::text::ascii_lowercase_str(b);
        crate::text::str_eq(x.as_str(), y.as_str())
    } else {
        same_path_exec(a, b)
    }
}


/// `s` with every `\` turned into `/`.
pub open spec fn slashes(s: Seq<char>) -> Seq<char> {
    s.map_values(|c: char| if c == '\\' { '/' } else { c })
}

pub fn slashes_str(s: &str) -> (r: String)
    ensures
        r@ == slashes(s@),
{
    let v = chars_of(s);
    let mut r = String::new();
    let mut i: usize = 0;
    while i < v.len()
        invariant
            i <= v@.len(),
            r@ == slashes(v@.subrange(0, i as int)),
        decreases v@.len() - i,
    {
        let c = if v[i] == '\\' {
            '/'
        } else {
            v[i]
        };
        push_char(&mut r, c);
        i = i + 1;
        assert(slashes(v@.subrange(0, i as int)) =~= slashes(v@.subrange(0, i - 1)).push(c));
    }
    assert(v@.subrange(0, v@.len() as int) =~= v@);
    r
}

/// `s` with every `/` turned into `\`.
pub open spec fn backslashes(s: Seq<char>) -> Seq<char> {
    s.map_values(|c: char| if c == '/' { '\\' } else { c })
}

fn backslashes_str(s: &str) -> (r: String)
    ensures
        r@ == backslashes(s@),
{
    let v = chars_of(s);
    let mut r = String::new();
    let mut i: usize = 0;
    while i < v.len()
        invariant
            i <= v@.len(),
            r@ == backslashes(v@.subrange(0, i as int)),
        decreases v@.len() - i,
    {
        let c = if v[i] == '/' {
            '\\'
        } else {
            v[i]
        };
        push_char(&mut r, c);
        i = i + 1;
        assert(backslashes(v@.subrange(0, i as int)) =~= backslashes(v@.subrange(0, i - 1)).push(c));
    }
    assert(v@.subrange(0, v@.len() as int) =~= v@);
    r
}

/// The text that the path rules read: on Windows, where `\` and `/` both separate
/// components, each `\` read as `/`; elsewhere the path itself.
pub open spec fn sep_form(windows: bool, p: Seq<char>) -> Seq<char> {
    if windows {
        slashes(p)
    } else {
        p
    }
}

pub fn sep_form_str(windows: bool, p: &str) -> (r: String)
    ensures
        r@ == sep_form(windows, p@),
{
    if windows {
        slashes_str(p)
    } else {
        p.to_owned()
    }
}

/// A Windows drive prefix at the start: an ASCII letter and `:`.
pub open spec fn has_drive_prefix(t: Seq<char>) -> bool {
    t.len() >= 2 && t[1] == ':' && (('a' <= t[0] && t[0] <= 'z') || ('A' <= t[0] && t[0] <= 'Z'))
}

fn has_drive_prefix_exec(t: &Vec<char>) -> (r: bool)
    ensures
        r == has_drive_prefix(t@),
{
    t.len() >= 2 && t[1] == ':' && (('a' <= t[0] && t[0] <= 'z') || ('A' <= t[0] && t[0] <= 'Z'))
}

/// `Path::components` on the platform.
pub open spec fn components_on(windows: bool, p: Seq<char>) -> Seq<Seq<char>> {
    components(sep_form(windows, p))
}

/// `Path::starts_with` on the platform.
pub open spec fn path_starts_with_on(windows: bool, p: Seq<char>, base: Seq<char>) -> bool {
    path_starts_with(sep_form(windows, p), sep_form(windows, base))
}

pub fn path_starts_with_on_exec(windows: bool, p: &str, base: &str) -> (r: bool)
    ensures
        r == path_starts_with_on(windows, p@, base@),
{
    path_starts_with_exec(sep_form_str(windows, p).as_str(), sep_form_str(windows, base).as_str())
}

/// `Path`'s `==` on the platform: the same components.
pub open spec fn same_path_on(windows: bool, a: Seq<char>, b: Seq<char>) -> bool {
    same_path(sep_form(windows, a), sep_form(windows, b))
}

pub fn same_path_on_exec(windows: bool, a: &str, b: &str) -> (r: bool)
    ensures
        r == same_path_on(windows, a@, b@),
{
    same_path_exec(sep_form_str(windows, a).as_str(), sep_form_str(windows, b).as_str())
}

/// `Path::file_name` on the platform.
pub open spec fn file_name_on(windows: bool, p: Seq<char>) -> Option<Seq<char>> {
    file_name_of(sep_form(windows, p))
}

pub fn path_file_name_on(windows: bool, path: &str) -> (r: Option<String>)
    ensures
        opt_view(r) == file_name_on(windows, path@),
{
    path_file_name(sep_form_str(windows, path).as_str())
}

pub open spec fn opt_view(o: Option<String>) -> Option<Seq<char>> {
    match o {
        Some(s) => Some(s@),
        None => None,
    }
}

proof fn lemma_strip_back_prefix(p: Seq<char>)
    ensures
        strip_back(p).len() <= p.len(),
        strip_back(p) == p.subrange(0, strip_back(p).len() as int),
    decreases p.len(),
{
    if p.len() > body_start(p) && (last_piece(p).len() == 0 || last_piece(p) == seq!['.']) {
        lemma_last_sep(p, p.len() as int, body_start(p));
        let d = drop_last_piece(p);
        lemma_strip_back_prefix(d);
        assert(strip_back(p) == strip_back(d));
        assert(strip_back(d) =~= p.subrange(0, strip_back(d).len() as int));
    } else {
        assert(p.subrange(0, p.len() as int) =~= p);
    }
}

proof fn lemma_parent_prefix(p: Seq<char>)
    ensures
        parent_of(p) matches Some(q) ==> q.len() <= p.len() && q == p.subrange(0, q.len() as int),
{
    let q = strip_back(p);
    lemma_strip_back_prefix(p);
    if q.len() > body_start(q) {
        lemma_last_sep(q, q.len() as int, body_start(q));
        let d = drop_last_piece(q);
        lemma_strip_back_prefix(d);
        assert(strip_back(d) =~= p.subrange(0, strip_back(d).len() as int));
    } else if !has_root(p) && has_cur_dir(q) {
        assert(Seq::<char>::empty() =~= p.subrange(0, 0));
    }
}

/// `Path::parent` on the platform: the text of the path up to where its parent ends.
pub open spec fn parent_on(windows: bool, p: Seq<char>) -> Option<Seq<char>> {
    match parent_of(sep_form(windows, p)) {
        Some(q) => Some(p.subrange(0, q.len() as int)),
        None => None,
    }
}

pub fn path_parent_on(windows: bool, path: &str) -> (r: Option<String>)
    ensures
        opt_view(r) == parent_on(windows, path@),
{
    let s = sep_form_str(windows, path);
    match path_parent(s.as_str()) {
        Some(q) => {
            proof {
                lemma_parent_prefix(s@);
            }
            let v = chars_of(path);
            let n = chars_of(q.as_str()).len();
            Some(prefix_string(&v, n))
        },
        None => None,
    }
}

/// `PathBuf::push` on the platform. On Windows a `b` that starts with a separator or a drive
/// prefix takes the place of `a`; otherwise `b` follows `a`, with a `\` between them unless
/// `a` is empty or already ends with a separator.
pub open spec fn path_join_on(windows: bool, a: Seq<char>, b: Seq<char>) -> Seq<char> {
    if !windows {
        path_join(a, b)
    } else if (b.len() > 0 && (b[0] == '/' || b[0] == '\\')) || has_drive_prefix(b) {
        b
    } else if a.len() > 0 && a.last() != '/' && a.last() != '\\' {
        a + seq!['\\'] + b
    } else {
        a + b
    }
}

pub fn path_join_on_exec(windows: bool, a: &str, b: &str) -> (r: String)
    ensures
        r@ == path_join_on(windows, a@, b@),
{
    if !windows {
        return path_join_exec(a, b);
    }
    let av = chars_of(a);
    let bv = chars_of(b);
    proof {
        reveal_strlit("\\");
    }
    if (bv.len() > 0 && (bv[0] == '/' || bv[0] == '\\')) || has_drive_prefix_exec(&bv) {
        b.to_owned()
    } else if av.len() > 0 && av[av.len() - 1] != '/' && av[av.len() - 1] != '\\' {
        concat3(a, "\\", b)
    } else {
        concat2(a, b)
    }
}


/// The named components of a request path, as its checked form is built from.
pub open spec fn request_pieces(raw: Seq<char>) -> Seq<Seq<char>> {
    keep_pieces(pieces_at(trim(raw), 0), true)
}

/// Whether a request path names a place below the sync folder on the platform, and which.
/// On Windows `\` separates components as `/` does, a component that reads as a drive
/// prefix is refused (it would put the path on that drive), and the answer is written with
/// `\`.
pub open spec fn relative_request_path_on(raw: Seq<char>, windows: bool) -> Option<Seq<char>> {
    if !windows {
        relative_request_path(raw)
    } else {
        match relative_request_path(slashes(raw)) {
            None => None,
            Some(r) => if exists|i: int| 0 <= i < request_pieces(slashes(raw)).len() && has_drive_prefix(
                #[trigger] request_pieces(slashes(raw))[i],
            ) {
                None
            } else {
                Some(backslashes(r))
            },
        }
    }
}

/// A request path checked as [`relative_request_path_on`] says, with the panel's error
/// message.
pub fn validate_relative_request_path(raw: &str, windows: bool) -> (r: Result<String, String>)
    ensures
        match relative_request_path_on(raw@, windows) {
            Some(p) => r matches Ok(s) && s@ == p,
            None => r matches Err(e) && e@ == "目标路径非法"@,
        },
{
    if !windows {
        return checked_relative_path(raw);
    }
    let s = slashes_str(raw);
    let rel = checked_relative_path(s.as_str())?;
    let t = crate::text::trim_str(s.as_str());
    let tv = chars_of(t.as_str());
    let ps = kept_pieces(&tv, 0, true);
    let ghost psv = cviews(ps@);
    assert(psv == request_pieces(slashes(raw@)));
    let mut i: usize = 0;
    while i < ps.len()
        invariant
            i <= ps@.len(),
            psv == cviews(ps@),
            psv == request_pieces(slashes(raw@)),
            relative_request_path(slashes(raw@)) is Some,
            windows,
            forall|j: int| 0 <= j < i ==> !has_drive_prefix(#[trigger] psv[j]),
        decreases ps@.len() - i,
    {
        assert(ps[i as int]@ == psv[i as int]);
        if has_drive_prefix_exec(&ps[i]) {
            assert(has_drive_prefix(request_pieces(slashes(raw@))[i as int]));
            return Err("目标路径非法".to_owned());
        }
        i = i + 1;
    }
    Ok(backslashes_str(rel.as_str()))
}


/// A sequence in which the char `c` does not occur.
pub open spec fn avoids(s: Seq<char>, c: char) -> bool {
    forall|k: int| 0 <= k < s.len() ==> #[trigger] s[k] != c
}

proof fn lemma_trim_start_avoids(s: Seq<char>, c: char)
    requires
        avoids(s, c),
    ensures
        avoids(crate::text::trim_start(s), c),
    decreases s.len(),
{
    if s.len() > 0 && crate::text::is_ws(s[0]) {
        assert(avoids(s.drop_first(), c)) by {
            assert forall|k: int| 0 <= k < s.drop_first().len() implies #[trigger] s.drop_first()[k] != c by {
                assert(s.drop_first()[k] == s[k + 1]);
            }
        }
        lemma_trim_start_avoids(s.drop_first(), c);
    }
}

proof fn lemma_trim_end_avoids(s: Seq<char>, c: char)
    requires
        avoids(s, c),
    ensures
        avoids(crate::text::trim_end(s), c),
    decreases s.len(),
{
    if s.len() > 0 && crate::text::is_ws(s.last()) {
        assert(avoids(s.drop_last(), c)) by {
            assert forall|k: int| 0 <= k < s.drop_last().len() implies #[trigger] s.drop_last()[k] != c by {
                assert(s.drop_last()[k] == s[k]);
            }
        }
        lemma_trim_end_avoids(s.drop_last(), c);
    }
}

proof fn lemma_pieces_avoid(s: Seq<char>, i: int, c: char)
    requires
        0 <= i <= s.len(),
        avoids(s, c),
    ensures
        forall|a: int| 0 <= a < pieces_at(s, i).len() ==> avoids(#[trigger] pieces_at(s, i)[a], c),
    decreases s.len() - i,
{
    let j = next_sep(s, i);
    lemma_next_sep(s, i);
    let ps = pieces_at(s, i);
    if j < s.len() {
        lemma_pieces_avoid(s, j + 1, c);
    }
    assert forall|a: int| 0 <= a < ps.len() implies avoids(#[trigger] ps[a], c) by {
        if a == 0 {
            assert(ps[0] == s.subrange(i, j));
            assert forall|k: int| 0 <= k < ps[0].len() implies #[trigger] ps[0][k] != c by {
                assert(ps[0][k] == s[i + k]);
            }
        } else {
            assert(ps[a] == pieces_at(s, j + 1)[a - 1]);
        }
    }
}

proof fn lemma_join_avoids(ps: Seq<Seq<char>>, c: char)
    requires
        c != '/',
        forall|a: int| 0 <= a < ps.len() ==> avoids(#[trigger] ps[a], c),
    ensures
        avoids(join_slash(ps), c),
    decreases ps.len(),
{
    if ps.len() > 1 {
        let init = ps.drop_last();
        assert forall|a: int| 0 <= a < init.len() implies avoids(#[trigger] init[a], c) by {
            assert(init[a] == ps[a]);
        }
        lemma_join_avoids(init, c);
        let j = join_slash(ps);
        assert(avoids(ps[ps.len() - 1], c));
        assert forall|k: int| 0 <= k < j.len() implies #[trigger] j[k] != c by {
            let l = join_slash(init);
            if k < l.len() {
                assert(j[k] == l[k]);
            } else if k > l.len() {
                assert(j[k] == ps.last()[k - l.len() - 1]);
            }
        }
    } else if ps.len() == 1 {
        assert(avoids(ps[0], c));
    }
}

proof fn lemma_slashes_fixed(s: Seq<char>)
    requires
        avoids(s, '\\'),
    ensures
        slashes(s) == s,
{
    assert(slashes(s) =~= s);
}

proof fn lemma_slashes_avoid(s: Seq<char>)
    ensures
        avoids(slashes(s), '\\'),
{
}

proof fn lemma_slashes_back(s: Seq<char>)
    ensures
        slashes(backslashes(s)) == slashes(s),
{
    assert(slashes(backslashes(s)) =~= slashes(s));
}

/// A request path checked on Windows holds no `\\` in its `/`-separated form.
proof fn lemma_checked_avoids_backslash(raw: Seq<char>)
    requires
        relative_request_path(slashes(raw)) is Some,
    ensures
        avoids(relative_request_path(slashes(raw))->Some_0, '\\'),
{
    let s = slashes(raw);
    lemma_slashes_avoid(raw);
    lemma_trim_start_avoids(s, '\\');
    lemma_trim_end_avoids(crate::text::trim_start(s), '\\');
    let t = trim(s);
    lemma_pieces_avoid(t, 0, '\\');
    let all = pieces_at(t, 0);
    let ps = keep_pieces(all, true);
    lemma_keep_elements(all, true);
    assert forall|a: int| 0 <= a < ps.len() implies avoids(#[trigger] ps[a], '\\') by {
        let b = choose|b: int| 0 <= b < all.len() && all[b] == ps[a];
        assert(avoids(all[b], '\\'));
    }
    lemma_join_avoids(ps, '\\');
}

/// On either platform, a checked request path stays below whatever folder it is joined onto:
/// the joined path's components (with `\\` read as a separator on Windows) are the folder's
/// followed by the request's own, and each of those names an entry (never empty, `.` or `..`).
pub proof fn checked_path_stays_below_on(root: Seq<char>, raw: Seq<char>, windows: bool)
    requires
        relative_request_path_on(raw, windows) is Some,
    ensures
        ({
            let joined = path_join_on(windows, root, relative_request_path_on(raw, windows)->Some_0);
            let c = components_on(windows, joined);
            &&& path_starts_with_on(windows, joined, root)
            &&& forall|k: int| components_on(windows, root).len() <= k < c.len() ==> (#[trigger] c[k]).len() > 0
                && c[k] != seq!['.'] && c[k] != seq!['.', '.']
        }),
{
    if !windows {
        checked_path_stays_below(root, raw);
    } else {
        let rel = relative_request_path(slashes(raw))->Some_0;
        let brel = backslashes(rel);
        let sroot = slashes(root);
        checked_path_stays_below(sroot, slashes(raw));
        lemma_checked_avoids_backslash(raw);
        lemma_slashes_fixed(rel);
        lemma_slashes_back(rel);
        // The checked path is not empty and starts with a named component.
        let t = trim(slashes(raw));
        let ps = keep_pieces(pieces_at(t, 0), true);
        lemma_keep_elements(pieces_at(t, 0), true);
        assert(rel == join_slash(ps));
        lemma_join_starts_with_first(ps);
        lemma_pieces_have_no_sep(t, 0);
        let all = pieces_at(t, 0);
        let b0 = choose|b: int| 0 <= b < all.len() && all[b] == ps[0];
        assert(all[b0][0] != '/');
        assert(rel[0] != '/');
        assert(rel[0] != '\\');
        assert(brel[0] == rel[0]);
        assert(!has_drive_prefix(brel)) by {
            if has_drive_prefix(brel) {
                assert(brel[1] == rel[1]);
                if ps[0].len() > 1 {
                    assert(has_drive_prefix(ps[0]));
                    assert(has_drive_prefix(request_pieces(slashes(raw))[0]));
                } else if ps.len() > 1 {
                    lemma_join_second(ps);
                    assert(brel[1] == '\\');
                } else {
                    assert(rel == ps[0]);
                }
            }
        }
        let joined = path_join_on(true, root, brel);
        assert(slashes(joined) == path_join(sroot, rel)) by {
            if root.len() > 0 && root.last() != '/' && root.last() != '\\' {
                assert(joined == root + seq!['\\'] + brel);
                assert(slashes(joined) =~= sroot + seq!['/'] + slashes(brel));
                assert(sroot.last() != '/');
            } else {
                assert(joined == root + brel);
                assert(slashes(joined) =~= sroot + slashes(brel));
                if root.len() > 0 {
                    assert(sroot.last() == '/');
                }
            }
        }
    }
}

proof fn lemma_join_second(ps: Seq<Seq<char>>)
    requires
        ps.len() > 1,
        ps[0].len() == 1,
    ensures
        join_slash(ps).len() > 1,
        join_slash(ps)[1] == '/',
    decreases ps.len(),
{
    let init = ps.drop_last();
    if ps.len() > 2 {
        lemma_join_second(init);
        let l = join_slash(init);
        assert(join_slash(ps) == l + seq!['/'] + ps.last());
        assert(join_slash(ps)[1] == l[1]);
    } else {
        assert(join_slash(init) == init[0]);
        assert(join_slash(ps) == ps[0] + seq!['/'] + ps.last());
    }
}


/// What clearing up an unfinished download at `f` removes, given whether each place was found
/// inside the sync folder: `inside[0]` for `f` before anything is removed, then `inside[1..4]`
/// for its three related paths (`f`, its `.aria2` file, its `.aria2__temp` file) as each is
/// reached. Nothing is removed when `f` lies outside; else each related path found inside, in
/// order. Pruning the empty folders above `f` follows exactly when `f` lies inside.
pub open spec fn artifact_removals(f: Seq<char>, inside: Seq<bool>) -> Seq<Seq<char>> {
    if !inside[0] {
        Seq::empty()
    } else {
        (if inside[1] { seq![f] } else { Seq::empty() }) + (if inside[2] { seq![f + ".aria2"@] } else {
            Seq::empty()
        }) + (if inside[3] { seq![f + ".aria2__temp"@] } else { Seq::empty() })
    }
}

pub fn plan_artifact_removal(file_path: &str, inside: &Vec<bool>) -> (r: (Vec<String>, bool))
    requires
        inside@.len() == 4,
    ensures
        strings_view(r.0@) == artifact_removals(file_path@, inside@),
        r.1 == inside@[0],
{
    let mut out: Vec<String> = Vec::new();
    if !inside[0] {
        assert(strings_view(out@) =~= artifact_removals(file_path@, inside@));
        return (out, false);
    }
    let related = tracked_aria2_related_paths(file_path);
    let ghost rv = strings_view(related@);
    assert(rv == related_paths(file_path@));
    let mut k: usize = 0;
    while k < 3
        invariant
            k <= 3,
            related@.len() == 3,
            strings_view(related@) == related_paths(file_path@),
            inside@.len() == 4,
            strings_view(out@) == (if k > 0 && inside@[1] { seq![file_path@] } else { Seq::<Seq<char>>::empty() })
                + (if k > 1 && inside@[2] { seq![file_path@ + ".aria2"@] } else { Seq::<Seq<char>>::empty() })
                + (if k > 2 && inside@[3] { seq![file_path@ + ".aria2__temp"@] } else { Seq::<Seq<char>>::empty() }),
        decreases 3 - k,
    {
        let ghost before = strings_view(out@);
        assert(related@[k as int]@ == related_paths(file_path@)[k as int]);
        if inside[k + 1] {
            out.push(related[k].clone());
        }
        k = k + 1;
        assert(strings_view(out@) =~= (if k > 0 && inside@[1] { seq![file_path@] } else { Seq::<Seq<char>>::empty() })
                + (if k > 1 && inside@[2] { seq![file_path@ + ".aria2"@] } else { Seq::<Seq<char>>::empty() })
                + (if k > 2 && inside@[3] { seq![file_path@ + ".aria2__temp"@] } else { Seq::<Seq<char>>::empty() }));
    }
    assert(strings_view(out@) =~= artifact_removals(file_path@, inside@));
    (out, true)
}

/// Clearing up a download removes only the file itself and its two aria2 files, and only
/// those found inside the sync folder, and nothing at all for a file outside it.
pub proof fn artifact_removals_are_related_and_inside(f: Seq<char>, inside: Seq<bool>)
    requires
        inside.len() == 4,
    ensures
        forall|i: int| 0 <= i < artifact_removals(f, inside).len() ==> {
            let x = #[trigger] artifact_removals(f, inside)[i];
            ||| x == f && inside[1]
            ||| x == f + ".aria2"@ && inside[2]
            ||| x == f + ".aria2__temp"@ && inside[3]
        },
        !inside[0] ==> artifact_removals(f, inside).len() == 0,
{
    let r = artifact_removals(f, inside);
    let a: Seq<Seq<char>> = if inside[1] { seq![f] } else { Seq::empty() };
    let b: Seq<Seq<char>> = if inside[2] { seq![f + ".aria2"@] } else { Seq::empty() };
    let c: Seq<Seq<char>> = if inside[3] { seq![f + ".aria2__temp"@] } else { Seq::empty() };
    if inside[0] {
        assert(r == a + b + c);
        assert forall|i: int| 0 <= i < r.len() implies {
            let x = #[trigger] r[i];
            ||| x == f && inside[1]
            ||| x == f + ".aria2"@ && inside[2]
            ||| x == f + ".aria2__temp"@ && inside[3]
        } by {
            if i < a.len() {
                assert(r[i] == a[i]);
            } else if i < a.len() + b.len() {
                assert(r[i] == b[i - a.len()]);
            } else {
                assert(r[i] == c[i - a.len() - b.len()]);
            }
        }
    }
}

} // verus!

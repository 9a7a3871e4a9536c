//! Turning a caller's database path into a sandboxed local path or a remote target.
use vstd::prelude::*;

use crate::error::Error;

verus! {

/// Where a local database lives: in memory, or in a file.
#[derive(Debug, Clone, PartialEq)]
pub enum LocalPath {
    Memory,
    File(String),
}

/// What a logical path resolves to.
#[derive(Debug, Clone, PartialEq)]
pub enum Target {
    /// A database on this machine (`LocalPath::Memory` is the in-memory one).
    Local(LocalPath),
    /// A database served remotely, with no local copy.
    Remote { url: String, auth_token: String },
    /// A local copy of a remote database, kept current by sync.
    Replica { local: LocalPath, sync_url: String, auth_token: String },
}

pub open spec fn sqlite_prefix() -> Seq<char> {
    seq!['s', 'q', 'l', 'i', 't', 'e', ':']
}

pub open spec fn memory_name() -> Seq<char> {
    seq![':', 'm', 'e', 'm', 'o', 'r', 'y', ':']
}

pub open spec fn libsql_scheme() -> Seq<char> {
    seq!['l', 'i', 'b', 's', 'q', 'l', ':', '/', '/']
}

pub open spec fn https_scheme() -> Seq<char> {
    seq!['h', 't', 't', 'p', 's', ':', '/', '/']
}

pub open spec fn has_prefix(s: Seq<char>, p: Seq<char>) -> bool {
    p.len() <= s.len() && s.subrange(0, p.len() as int) == p
}

/// The path with one leading `sqlite:` taken off.
pub open spec fn strip_sqlite(s: Seq<char>) -> Seq<char> {
    if has_prefix(s, sqlite_prefix()) {
        s.subrange(sqlite_prefix().len() as int, s.len() as int)
    } else {
        s
    }
}

pub open spec fn is_absolute(s: Seq<char>) -> bool {
    s.len() > 0 && s[0] == '/'
}

/// A path names a remote database when it starts with `libsql://` or `https://`.
pub open spec fn is_remote_url(s: Seq<char>) -> bool {
    has_prefix(s, libsql_scheme()) || has_prefix(s, https_scheme())
}

/// The segments read from the first `n` characters: those completed by a
/// `/`, and where the segment being read starts.
pub open spec fn split_upto(s: Seq<char>, n: int) -> (Seq<Seq<char>>, int)
    decreases n,
{
    if n <= 0 {
        (Seq::empty(), 0)
    } else {
        let (segs, start) = split_upto(s, n - 1);
        if s[n - 1] == '/' {
            (if n - 1 > start {
                segs.push(s.subrange(start, n - 1))
            } else {
                segs
            }, n)
        } else {
            (segs, start)
        }
    }
}

/// The non-empty segments of a path between `/` separators, in order.
pub open spec fn segments(s: Seq<char>) -> Seq<Seq<char>> {
    let (segs, start) = split_upto(s, s.len() as int);
    if s.len() > start {
        segs.push(s.subrange(start, s.len() as int))
    } else {
        segs
    }
}

pub open spec fn dot() -> Seq<char> {
    seq!['.']
}

pub open spec fn dot_dot() -> Seq<char> {
    seq!['.', '.']
}

/// Segments with `.` dropped and each `..` removing the segment kept before
/// it (none at the top).
pub open spec fn normalize(segs: Seq<Seq<char>>) -> Seq<Seq<char>>
    decreases segs.len(),
{
    if segs.len() == 0 {
        Seq::empty()
    } else {
        let prev = normalize(segs.drop_last());
        let last = segs.last();
        if last == dot() {
            prev
        } else if last == dot_dot() {
            if prev.len() == 0 {
                prev
            } else {
                prev.drop_last()
            }
        } else {
            prev.push(last)
        }
    }
}

/// Segments with every `.` dropped.
pub open spec fn drop_dots(segs: Seq<Seq<char>>) -> Seq<Seq<char>>
    decreases segs.len(),
{
    if segs.len() == 0 {
        Seq::empty()
    } else if segs.last() == dot() {
        drop_dots(segs.drop_last())
    } else {
        drop_dots(segs.drop_last()).push(segs.last())
    }
}

/// Segments joined with `/`.
pub open spec fn join(segs: Seq<Seq<char>>) -> Seq<char>
    decreases segs.len(),
{
    if segs.len() == 0 {
        Seq::empty()
    } else if segs.len() == 1 {
        segs[0]
    } else {
        join(segs.drop_last()) + seq!['/'] + segs.last()
    }
}

/// The path of `rel` under the sandbox root `base`, normalized without
/// consulting the file system; `None` when it leaves the root.
pub open spec fn sandboxed(base: Seq<char>, rel: Seq<char>) -> Option<Seq<char>> {
    let segs = normalize(segments(base) + segments(rel));
    let root = drop_dots(segments(base));
    if root.len() <= segs.len() && segs.subrange(0, root.len() as int) == root {
        Some(if is_absolute(base) { seq!['/'] + join(segs) } else { join(segs) })
    } else {
        None
    }
}

/// Where a local path goes: memory for `:memory:`, an absolute path as it
/// stands, anything else under the sandbox root (`None` if it escapes).
pub open spec fn local_target(path: Seq<char>, base: Seq<char>) -> Option<Option<Seq<char>>> {
    let p = strip_sqlite(path);
    if p == memory_name() {
        Some(None)
    } else if is_absolute(p) {
        Some(Some(p))
    } else {
        match sandboxed(base, p) {
            Some(f) => Some(Some(f)),
            None => None,
        }
    }
}

/// `l` is the local path that `local_target` describes by `t`.
pub open spec fn local_is(l: LocalPath, t: Option<Seq<char>>) -> bool {
    match t {
        None => l is Memory,
        Some(f) => l matches LocalPath::File(s) && s@ == f,
    }
}

fn has_prefix_exec(s: &str, p: &str) -> (r: bool)
    ensures
        r == has_prefix(s@, p@),
{
    let n = s.unicode_len();
    let m = p.unicode_len();
    if m > n {
        return false;
    }
    let mut i: usize = 0;
    while i < m
        invariant
            m == p@.len(),
            n == s@.len(),
            m <= n,
            i <= m,
            forall|j: int| 0 <= j < i ==> s@[j] == p@[j],
        decreases m - i,
    {
        if s.get_char(i) != p.get_char(i) {
            assert(s@.subrange(0, m as int)[i as int] != p@[i as int]);
            return false;
        }
        i = i + 1;
    }
    assert(s@.subrange(0, m as int) =~= p@);
    true
}

fn is_text(s: &str, t: &str) -> (r: bool)
    ensures
        r == (s@ == t@),
{
    let n = s.unicode_len();
    let m = t.unicode_len();
    if n != m {
        return false;
    }
    let b = has_prefix_exec(s, t);
    assert(s@.subrange(0, m as int) =~= s@);
    b
}

fn split_segments(s: &str) -> (r: Vec<String>)
    ensures
        r@.map_values(|x: String| x@) == segments(s@),
{
    let n = s.unicode_len();
    let mut segs: Vec<String> = Vec::new();
    let mut start: usize = 0;
    let mut i: usize = 0;
    while i < n
        invariant
            n == s@.len(),
            i <= n,
            start <= i,
            (segs@.map_values(|x: String| x@), start as int) == split_upto(s@, i as int),
        decreases n - i,
    {
        if s.get_char(i) == '/' {
            if i > start {
                let piece = String::from_str(s.substring_char(start, i));
                segs.push(piece);
                assert(segs@.map_values(|x: String| x@) =~= split_upto(s@, i as int).0.push(
                    s@.subrange(start as int, i as int),
                ));
            }
            start = i + 1;
        }
        i = i + 1;
    }
    if n > start {
        let piece = String::from_str(s.substring_char(start, n));
        segs.push(piece);
        assert(segs@.map_values(|x: String| x@) =~= split_upto(s@, n as int).0.push(
            s@.subrange(start as int, n as int),
        ));
    }
    segs
}

pub open spec fn views(v: Seq<String>) -> Seq<Seq<char>> {
    v.map_values(|x: String| x@)
}

fn normalize_segments(segs: Vec<String>) -> (r: Vec<String>)
    ensures
        views(r@) == normalize(views(segs@)),
{
    let ghost all = views(segs@);
    let n = segs.len();
    let mut rest = segs;
    let mut out: Vec<String> = Vec::new();
    let mut i: usize = 0;
    while i < n
        invariant
            n == all.len(),
            i <= n,
            views(rest@) == all.subrange(i as int, n as int),
            views(out@) == normalize(all.subrange(0, i as int)),
        decreases n - i,
    {
        proof {
            assert(all.subrange(0, i + 1).drop_last() =~= all.subrange(0, i as int));
            assert(views(rest@).len() == rest@.len());
            assert(views(rest@)[0] == all[i as int]);
        }
        let ghost before = rest@;
        let seg = rest.remove(0);
        assert(rest@ =~= before.subrange(1, before.len() as int));
        assert forall|k: int| 0 <= k < rest@.len() implies views(rest@)[k] == all[i + 1 + k] by {
            assert(views(before)[k + 1] == all[i + 1 + k]);
        }
        assert(views(rest@) =~= all.subrange(i + 1, n as int));
        if is_text(seg.as_str(), ".") {
            proof { reveal_strlit("."); assert(seg@ == dot()); }
        } else if is_text(seg.as_str(), "..") {
            proof {
                reveal_strlit(".");
                reveal_strlit("..");
                assert(seg@ == dot_dot());
                assert(seg@ != dot());
            }
            if out.len() > 0 {
                out.pop();
                assert(views(out@) =~= normalize(all.subrange(0, i as int)).drop_last());
            }
        } else {
            proof {
                reveal_strlit(".");
                reveal_strlit("..");
                assert(dot() =~= "."@);
                assert(dot_dot() =~= ".."@);
            }
            out.push(seg);
            assert(views(out@) =~= normalize(all.subrange(0, i as int)).push(all[i as int]));
        }
        i = i + 1;
    }
    assert(all.subrange(0, n as int) =~= all);
    out
}

fn drop_dot_segments(segs: &Vec<String>) -> (r: Vec<String>)
    ensures
        views(r@) == drop_dots(views(segs@)),
{
    let ghost all = views(segs@);
    let mut out: Vec<String> = Vec::new();
    let mut i: usize = 0;
    while i < segs.len()
        invariant
            all == views(segs@),
            i <= segs.len(),
            views(out@) == drop_dots(all.subrange(0, i as int)),
        decreases segs.len() - i,
    {
        proof {
            assert(all.subrange(0, i + 1).drop_last() =~= all.subrange(0, i as int));
            reveal_strlit(".");
            assert(dot() =~= "."@);
        }
        if !is_text(segs[i].as_str(), ".") {
            out.push(segs[i].clone());
            assert(views(out@) =~= drop_dots(all.subrange(0, i as int)).push(all[i as int]));
        }
        i = i + 1;
    }
    assert(all.subrange(0, segs.len() as int) =~= all);
    out
}

fn starts_with_segments(segs: &Vec<String>, root: &Vec<String>) -> (r: bool)
    ensures
        r == (root.len() <= segs.len() && views(segs@).subrange(0, root.len() as int) == views(
            root@,
        )),
{
    if root.len() > segs.len() {
        return false;
    }
    let mut i: usize = 0;
    while i < root.len()
        invariant
            root.len() <= segs.len(),
            i <= root.len(),
            forall|j: int| 0 <= j < i ==> segs@[j]@ == root@[j]@,
        decreases root.len() - i,
    {
        if segs[i] != root[i] {
            assert(views(segs@).subrange(0, root.len() as int)[i as int] != views(root@)[i as int]);
            return false;
        }
        i = i + 1;
    }
    assert(views(segs@).subrange(0, root.len() as int) =~= views(root@));
    true
}

fn join_segments(prefix: String, segs: &Vec<String>) -> (r: String)
    ensures
        r@ == prefix@ + join(views(segs@)),
{
    let ghost all = views(segs@);
    let mut out = prefix;
    let mut i: usize = 0;
    while i < segs.len()
        invariant
            all == views(segs@),
            i <= segs.len(),
            out@ == prefix@ + join(all.subrange(0, i as int)),
        decreases segs.len() - i,
    {
        proof {
            assert(all.subrange(0, i + 1).drop_last() =~= all.subrange(0, i as int));
            reveal_strlit("/");
        }
        if i > 0 {
            out.append("/");
        }
        out.append(segs[i].as_str());
        proof {
            if i == 0 {
                assert(join(all.subrange(0, 1)) == all[0]);
                assert(out@ =~= prefix@ + join(all.subrange(0, i + 1)));
            } else {
                assert(out@ =~= prefix@ + join(all.subrange(0, i + 1)));
            }
        }
        i = i + 1;
    }
    assert(all.subrange(0, segs.len() as int) =~= all);
    out
}

fn sandbox(base: &str, rel: &str) -> (r: Option<String>)
    ensures
        match sandboxed(base@, rel@) {
            Some(p) => r matches Some(s) && s@ == p,
            None => r is None,
        },
{
    let base_segs = split_segments(base);
    let mut joined = split_segments(base);
    let mut rel_segs = split_segments(rel);
    joined.append(&mut rel_segs);
    assert(views(joined@) =~= segments(base@) + segments(rel@));
    let segs = normalize_segments(joined);
    let root = drop_dot_segments(&base_segs);
    if !starts_with_segments(&segs, &root) {
        return None;
    }
    let absolute = base.unicode_len() > 0 && base.get_char(0) == '/';
    let prefix = if absolute {
        String::from_str("/")
    } else {
        String::new()
    };
    proof {
        reveal_strlit("/");
    }
    let out = join_segments(prefix, &segs);
    assert(absolute ==> out@ =~= seq!['/'] + join(views(segs@)));
    assert(!absolute ==> out@ =~= join(views(segs@)));
    Some(out)
}

/// The message of the error for a path that leaves the sandbox root.
pub open spec fn escape_message(p: Seq<char>) -> Seq<char> {
    "path '"@ + p + "' escapes the base directory"@
}

/// Resolves the local part of a database path against the sandbox root
/// `base_path`: an optional `sqlite:` prefix is dropped, `:memory:` names the
/// in-memory database, an absolute path is taken as it stands, and any other
/// path is joined onto the root and normalized. A path that then lies outside
/// the root is refused.
pub fn resolve_local_path(path: &str, base_path: &str) -> (r: Result<LocalPath, Error>)
    ensures
        match local_target(path@, base_path@) {
            Some(t) => r matches Ok(l) && local_is(l, t),
            None => r matches Err(Error::InvalidDbUrl(m)) && m@ == escape_message(
                strip_sqlite(path@),
            ),
        },
{
    proof {
        reveal_strlit("sqlite:");
        reveal_strlit(":memory:");
        assert("sqlite:"@ =~= sqlite_prefix());
        assert(":memory:"@ =~= memory_name());
    }
    let p: &str = if has_prefix_exec(path, "sqlite:") {
        path.substring_char(7, path.unicode_len())
    } else {
        path
    };
    assert(p@ == strip_sqlite(path@));
    if is_text(p, ":memory:") {
        return Ok(LocalPath::Memory);
    }
    if p.unicode_len() > 0 && p.get_char(0) == '/' {
        return Ok(LocalPath::File(String::from_str(p)));
    }
    match sandbox(base_path, p) {
        Some(full) => Ok(LocalPath::File(full)),
        None => {
            let mut m = String::from_str("path '");
            m.append(p);
            m.append("' escapes the base directory");
            Err(Error::InvalidDbUrl(m))
        },
    }
}

/// The auth token, or the empty one when none was given.
pub open spec fn token_of(t: Option<String>) -> Seq<char> {
    match t {
        Some(s) => s@,
        None => Seq::empty(),
    }
}

fn token_or_empty(t: Option<String>) -> (r: String)
    ensures
        r@ == token_of(t),
{
    match t {
        Some(s) => s,
        None => String::new(),
    }
}

/// `r` is what a load of `path` opens: with a sync URL, a replica whose local
/// copy lies where `resolve_local_path` puts it; otherwise a remote database
/// for a `libsql://` or `https://` path, else a local one.
pub open spec fn resolves(
    path: Seq<char>,
    base: Seq<char>,
    sync_url: Option<String>,
    auth_token: Option<String>,
    r: Result<Target, Error>,
) -> bool {
    match sync_url {
        Some(u) => match local_target(path, base) {
            Some(t) => r matches Ok(Target::Replica { local, sync_url, auth_token: tok })
                && local_is(local, t) && sync_url == u && tok@ == token_of(auth_token),
            None => r matches Err(Error::InvalidDbUrl(m)) && m@ == escape_message(
                strip_sqlite(path),
            ),
        },
        None => if is_remote_url(path) {
            r matches Ok(Target::Remote { url, auth_token: tok }) && url@ == path && tok@
                == token_of(auth_token)
        } else {
            match local_target(path, base) {
                Some(t) => r matches Ok(Target::Local(l)) && local_is(l, t),
                None => r matches Err(Error::InvalidDbUrl(m)) && m@ == escape_message(
                    strip_sqlite(path),
                ),
            }
        },
    }
}

/// Decides what a logical path names, given the sandbox root and the optional
/// sync URL and auth token of the load.
pub fn resolve_target(
    path: &str,
    base_path: &str,
    sync_url: Option<String>,
    auth_token: Option<String>,
) -> (r: Result<Target, Error>)
    ensures
        resolves(path@, base_path@, sync_url, auth_token, r),
{
    match sync_url {
        Some(url) => {
            let local = resolve_local_path(path, base_path)?;
            Ok(Target::Replica { local, sync_url: url, auth_token: token_or_empty(auth_token) })
        },
        None => {
            proof {
                reveal_strlit("libsql://");
                reveal_strlit("https://");
                assert("libsql://"@ =~= libsql_scheme());
                assert("https://"@ =~= https_scheme());
            }
            if has_prefix_exec(path, "libsql://") || has_prefix_exec(path, "https://") {
                Ok(Target::Remote { url: String::from_str(path), auth_token: token_or_empty(auth_token) })
            } else {
                let local = resolve_local_path(path, base_path)?;
                Ok(Target::Local(local))
            }
        },
    }
}

/// Whether a sync has work to do on a connection to `target`: only a replica
/// pulls from its remote; on any other target a sync succeeds doing nothing.
pub fn needs_sync(target: &Target) -> (r: bool)
    ensures
        r == target is Replica,
{
    match target {
        Target::Replica { .. } => true,
        _ => false,
    }
}

} // verus!

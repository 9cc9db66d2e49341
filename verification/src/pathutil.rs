//! Component-level path utilities.
//!
//! Hierarchy is never decided from raw strings (`starts_with("/a/b")` would
//! collide with `/a/bar2`). Everything here compares path **components**
//! with the Unix path grammar: a leading `/` is the root component, empty
//! and `.` segments vanish (except a leading `.` of a relative path), `..`
//! is its own component, and trailing separators add nothing.
use vstd::prelude::*;
use crate::text::{chars_eq, chars_of, copy_chars, push_char, push_seq, views};

verus! {

/// Drop a finished segment unless it is empty or `.`.
pub open spec fn flush(done: Seq<Seq<char>>, cur: Seq<char>) -> Seq<Seq<char>> {
    if cur.len() == 0 || cur == seq!['.'] { done } else { done.push(cur) }
}

/// Left-to-right scan state after reading `s`: finished named segments and
/// the segment being read.
pub open spec fn scan_state(s: Seq<char>) -> (Seq<Seq<char>>, Seq<char>)
    decreases s.len(),
{
    if s.len() == 0 {
        (Seq::empty(), Seq::empty())
    } else {
        let (done, cur) = scan_state(s.drop_last());
        if s.last() == '/' {
            (flush(done, cur), Seq::empty())
        } else {
            (done, cur.push(s.last()))
        }
    }
}

/// The root or leading current-directory component, if any.
pub open spec fn head_components(s: Seq<char>) -> Seq<Seq<char>> {
    if s.len() > 0 && s[0] == '/' {
        seq![seq!['/']]
    } else if s.len() > 0 && s[0] == '.' && (s.len() == 1 || s[1] == '/') {
        seq![seq!['.']]
    } else {
        Seq::empty()
    }
}

/// The components of a path, as `Path::components` yields them on Unix.
pub open spec fn components(s: Seq<char>) -> Seq<Seq<char>> {
    head_components(s) + flush(scan_state(s).0, scan_state(s).1)
}

/// Is `a` a prefix of `c`?
pub open spec fn is_prefix_of(a: Seq<Seq<char>>, c: Seq<Seq<char>>) -> bool {
    a.len() <= c.len() && forall|i: int| 0 <= i < a.len() ==> a[i] == c[i]
}

/// `child` is inside (or equal to) `ancestor`, component-wise.
pub open spec fn under(child: Seq<char>, ancestor: Seq<char>) -> bool {
    is_prefix_of(components(ancestor), components(child))
}

/// `child` is exactly one level below `parent`.
pub open spec fn direct_child(child: Seq<char>, parent: Seq<char>) -> bool {
    components(child).len() == components(parent).len() + 1 && under(child, parent)
}

/// Components joined with `/`.
pub open spec fn join_slash(parts: Seq<Seq<char>>) -> Seq<char>
    decreases parts.len(),
{
    if parts.len() == 0 {
        Seq::empty()
    } else if parts.len() == 1 {
        parts[0]
    } else {
        join_slash(parts.drop_last()) + seq!['/'] + parts.last()
    }
}

/// What `relative_display` shows for `path` under `root`.
pub open spec fn relative_text(path: Seq<char>, root: Seq<char>) -> Option<Seq<char>> {
    let rc = components(root);
    let pc = components(path);
    if pc.len() <= rc.len() || !is_prefix_of(rc, pc) {
        None
    } else {
        Some(join_slash(pc.subrange(rc.len() as int, pc.len() as int)))
    }
}

fn flush_exec(done: &mut Vec<Vec<char>>, cur: Vec<char>)
    ensures
        views(final(done)@) == flush(views(old(done)@), cur@),
{
    let dot = cur.len() == 1 && cur[0] == '.';
    if cur.len() == 0 || dot {
        proof {
            if dot {
                assert(cur@ =~= seq!['.']);
            }
        }
    } else {
        assert(cur@ != seq!['.']);
        let ghost before = views(done@);
        done.push(cur);
        assert(views(done@) =~= before.push(cur@));
    }
}

/// The components of `s` (see [`components`]).
pub fn components_of(s: &str) -> (r: Vec<Vec<char>>)
    ensures
        views(r@) == components(s@),
{
    let cs = chars_of(s);
    let n = cs.len();
    let mut done: Vec<Vec<char>> = Vec::new();
    let mut cur: Vec<char> = Vec::new();
    let mut i: usize = 0;
    while i < n
        invariant
            n == cs.len(),
            cs@ == s@,
            i <= n,
            (views(done@), cur@) == scan_state(s@.subrange(0, i as int)),
        decreases n - i,
    {
        let c = cs[i];
        let ghost pre = s@.subrange(0, i as int);
        assert(s@.subrange(0, (i + 1) as int).drop_last() =~= pre);
        if c == '/' {
            let finished = cur;
            flush_exec(&mut done, finished);
            cur = Vec::new();
        } else {
            cur.push(c);
        }
        i = i + 1;
    }
    assert(s@.subrange(0, n as int) =~= s@);
    let mut out: Vec<Vec<char>> = Vec::new();
    if n > 0 && cs[0] == '/' {
        let mut c: Vec<char> = Vec::new();
        c.push('/');
        out.push(c);
    } else if n > 0 && cs[0] == '.' && (n == 1 || cs[1] == '/') {
        let mut c: Vec<char> = Vec::new();
        c.push('.');
        out.push(c);
    }
    assert(views(out@) =~= head_components(s@));
    flush_exec(&mut done, cur);
    let ghost h = views(out@);
    let ghost d = views(done@);
    let mut k: usize = 0;
    while k < done.len()
        invariant
            k <= done.len(),
            d == views(done@),
            views(out@) == h + d.subrange(0, k as int),
        decreases done.len() - k,
    {
        let part = copy_chars(&done[k]);
        assert(part@ == d[k as int]);
        let ghost before = views(out@);
        out.push(part);
        assert(views(out@) =~= before.push(part@));
        assert(views(out@) =~= h + d.subrange(0, (k + 1) as int));
        k = k + 1;
    }
    assert(d.subrange(0, done.len() as int) =~= d);
    out
}

/// Component equality (byte-exact, as on Unix).
pub fn comp_eq(a: &Vec<char>, b: &Vec<char>) -> (r: bool)
    ensures
        r == (a@ == b@),
{
    chars_eq(a, b)
}

/// Is `a` a prefix of `c`, component-wise?
fn prefix_exec(a: &Vec<Vec<char>>, c: &Vec<Vec<char>>) -> (r: bool)
    ensures
        r == is_prefix_of(views(a@), views(c@)),
{
    if a.len() > c.len() {
        return false;
    }
    let mut i: usize = 0;
    while i < a.len()
        invariant
            a.len() <= c.len(),
            i <= a.len(),
            forall|j: int| 0 <= j < i ==> views(a@)[j] == views(c@)[j],
        decreases a.len() - i,
    {
        if !comp_eq(&a[i], &c[i]) {
            assert(views(a@)[i as int] != views(c@)[i as int]);
            return false;
        }
        i = i + 1;
    }
    true
}

/// Is `child` inside (or equal to) `ancestor`? Component-level.
pub fn is_under(child: &str, ancestor: &str) -> (r: bool)
    ensures
        r == under(child@, ancestor@),
{
    let cc = components_of(child);
    let ac = components_of(ancestor);
    prefix_exec(&ac, &cc)
}

/// Is `child` inside (or equal to) `ancestor`, allowing filesystem-canonical
/// equivalents: when the plain spellings are not nested, the canonical
/// spellings (nearest existing ancestor canonicalized, missing suffix
/// re-appended; `None` when none could be formed) decide.
pub fn is_under_scope(
    child: &str,
    ancestor: &str,
    canonical_child: Option<&str>,
    canonical_ancestor: Option<&str>,
) -> (r: bool)
    ensures
        r == (under(child@, ancestor@) || match (canonical_child, canonical_ancestor) {
            (Some(c), Some(a)) => under(c@, a@),
            _ => false,
        }),
{
    if is_under(child, ancestor) {
        return true;
    }
    match (canonical_child, canonical_ancestor) {
        (Some(c), Some(a)) => is_under(c, a),
        _ => false,
    }
}

/// Are two paths the same directory (component-equal)?
pub fn paths_equal(a: &str, b: &str) -> (r: bool)
    ensures
        r == (components(a@) == components(b@)),
{
    let ac = components_of(a);
    let bc = components_of(b);
    let r = ac.len() == bc.len() && prefix_exec(&ac, &bc);
    if r {
        assert(views(ac@) =~= views(bc@));
    } else {
        proof {
            if views(ac@) == views(bc@) {
                assert(views(ac@).len() == ac.len());
                assert(views(bc@).len() == bc.len());
                assert(is_prefix_of(views(ac@), views(bc@)));
            }
        }
    }
    r
}

/// Is `child` a **direct** child of `parent` (exactly one more component)?
pub fn is_direct_child(child: &str, parent: &str) -> (r: bool)
    ensures
        r == direct_child(child@, parent@),
{
    let pc = components_of(parent);
    let cc = components_of(child);
    cc.len() > pc.len() && cc.len() - pc.len() == 1 && prefix_exec(&pc, &cc)
}

proof fn lemma_join_slash_push(parts: Seq<Seq<char>>, p: Seq<char>)
    requires
        parts.len() > 0,
    ensures
        join_slash(parts.push(p)) == join_slash(parts) + seq!['/'] + p,
{
    assert(parts.push(p).drop_last() =~= parts);
}

/// `/`-joined display of `path` relative to `root`; `None` when `path` is
/// not strictly below `root`.
pub fn relative_display(path: &str, root: &str) -> (r: Option<String>)
    ensures
        r matches Some(s) ==> relative_text(path@, root@) == Some(s@),
        r is None ==> relative_text(path@, root@) is None,
{
    let rc = components_of(root);
    let pc = components_of(path);
    if pc.len() <= rc.len() || !prefix_exec(&rc, &pc) {
        return None;
    }
    let ghost rest = views(pc@).subrange(rc.len() as int, pc.len() as int);
    let mut out = String::new();
    let mut k: usize = rc.len();
    while k < pc.len()
        invariant
            rc.len() <= k <= pc.len(),
            rc.len() < pc.len(),
            rest == views(pc@).subrange(rc.len() as int, pc.len() as int),
            out@ == join_slash(rest.subrange(0, (k - rc.len()) as int)),
        decreases pc.len() - k,
    {
        let ghost prev = rest.subrange(0, (k - rc.len()) as int);
        if k > rc.len() {
            push_char(&mut out, '/');
        }
        push_seq(&mut out, &pc[k]);
        proof {
            let next = rest.subrange(0, (k + 1 - rc.len()) as int);
            assert(next =~= prev.push(views(pc@)[k as int]));
            if k > rc.len() {
                lemma_join_slash_push(prev, views(pc@)[k as int]);
            } else {
                assert(prev.len() == 0);
            }
            assert(out@ =~= join_slash(next));
        }
        k = k + 1;
    }
    assert(rest.subrange(0, rest.len() as int) =~= rest);
    Some(out)
}

/// Strip a platform verbatim prefix from a canonical path. Unix paths have
/// none, so the path is returned as it is.
pub fn normalize_abs(p: String) -> (r: String)
    ensures
        r@ == p@,
{
    p
}

/// Lexical fold of components: root marker kept, `.` dropped, `..` pops the
/// previous named component (never above the root).
pub open spec fn lexical_fold(cs: Seq<Seq<char>>) -> (bool, Seq<Seq<char>>)
    decreases cs.len(),
{
    if cs.len() == 0 {
        (false, Seq::empty())
    } else {
        let (rooted, parts) = lexical_fold(cs.drop_last());
        let c = cs.last();
        if c == seq!['/'] {
            (true, parts)
        } else if c == seq!['.'] {
            (rooted, parts)
        } else if c == seq!['.', '.'] {
            (rooted, if parts.len() > 0 { parts.drop_last() } else { parts })
        } else {
            (rooted, parts.push(c))
        }
    }
}

/// What `normalize_lexical` produces for a path.
pub open spec fn lexical_text(p: Seq<char>) -> Seq<char> {
    let (rooted, parts) = lexical_fold(components(p));
    let body = if rooted { seq!['/'] + join_slash(parts) } else { join_slash(parts) };
    if body.len() == 0 { seq!['.'] } else { body }
}

/// Lexically normalize a path without touching the filesystem: drop `.`
/// components and fold `..` over preceding named components (never above
/// the root). `root/.` compares equal to `root`; `.` stays `.`.
pub fn normalize_lexical(p: &str) -> (r: String)
    ensures
        r@ == lexical_text(p@),
{
    let cs = components_of(p);
    let ghost all = views(cs@);
    let mut rooted = false;
    let mut parts: Vec<Vec<char>> = Vec::new();
    let mut i: usize = 0;
    while i < cs.len()
        invariant
            i <= cs.len(),
            all == views(cs@),
            (rooted, views(parts@)) == lexical_fold(all.subrange(0, i as int)),
        decreases cs.len() - i,
    {
        let c = &cs[i];
        assert(all.subrange(0, (i + 1) as int).drop_last() =~= all.subrange(0, i as int));
        let is_root = c.len() == 1 && c[0] == '/';
        let is_cur = c.len() == 1 && c[0] == '.';
        let is_parent = c.len() == 2 && c[0] == '.' && c[1] == '.';
        proof {
            assert(is_root == (c@ == seq!['/'])) by {
                if c@ == seq!['/'] { assert(c@[0] == '/'); }
                if is_root { assert(c@ =~= seq!['/']); }
            }
            assert(is_cur == (c@ == seq!['.'])) by {
                if c@ == seq!['.'] { assert(c@[0] == '.'); }
                if is_cur { assert(c@ =~= seq!['.']); }
            }
            assert(is_parent == (c@ == seq!['.', '.'])) by {
                if c@ == seq!['.', '.'] { assert(c@[0] == '.' && c@[1] == '.'); }
                if is_parent { assert(c@ =~= seq!['.', '.']); }
            }
        }
        if is_root {
            rooted = true;
        } else if is_cur {
        } else if is_parent {
            if parts.len() > 0 {
                let ghost before = views(parts@);
                parts.pop();
                assert(views(parts@) =~= before.drop_last());
            }
        } else {
            let ghost before = views(parts@);
            parts.push(copy_chars(c));
            assert(views(parts@) =~= before.push(c@));
        }
        i = i + 1;
    }
    assert(all.subrange(0, cs.len() as int) =~= all);
    let ghost pv = views(parts@);
    let mut out = String::new();
    if rooted {
        push_char(&mut out, '/');
    }
    let ghost start = out@;
    let mut k: usize = 0;
    while k < parts.len()
        invariant
            k <= parts.len(),
            pv == views(parts@),
            out@ == start + join_slash(pv.subrange(0, k as int)),
        decreases parts.len() - k,
    {
        let ghost prev = pv.subrange(0, k as int);
        if k > 0 {
            push_char(&mut out, '/');
        }
        push_seq(&mut out, &parts[k]);
        proof {
            let next = pv.subrange(0, (k + 1) as int);
            assert(next =~= prev.push(pv[k as int]));
            if k > 0 {
                lemma_join_slash_push(prev, pv[k as int]);
            }
            assert(out@ =~= start + join_slash(next));
        }
        k = k + 1;
    }
    assert(pv.subrange(0, parts.len() as int) =~= pv);
    if out.as_str().unicode_len() == 0 {
        push_char(&mut out, '.');
        assert(out@ =~= lexical_text(p@));
    } else {
        assert(out@ =~= lexical_text(p@));
    }
    out
}

/// `Path::join` on Unix: an absolute `b` replaces `a`; otherwise `b` is
/// appended after a separator (none added when `a` is empty or ends in one).
pub open spec fn path_join(a: Seq<char>, b: Seq<char>) -> Seq<char> {
    if b.len() > 0 && b[0] == '/' {
        b
    } else if a.len() == 0 || a.last() == '/' {
        a + b
    } else {
        a + seq!['/'] + b
    }
}

/// `Path::join` on Unix.
pub fn join(a: &str, b: &str) -> (r: String)
    ensures
        r@ == path_join(a@, b@),
{
    let bc = chars_of(b);
    let ac = chars_of(a);
    let mut out = String::new();
    if bc.len() > 0 && bc[0] == '/' {
        out.append(b);
        assert(out@ =~= path_join(a@, b@));
        return out;
    }
    out.append(a);
    if !(ac.len() == 0 || ac[ac.len() - 1] == '/') {
        push_char(&mut out, '/');
    }
    out.append(b);
    assert(out@ =~= path_join(a@, b@));
    out
}

/// Where a user-supplied path points: absolute paths stay, relative ones
/// join the working directory (when it is known), then the result is
/// lexically normalized.
pub open spec fn target_text(raw: Seq<char>, cwd: Option<Seq<char>>) -> Seq<char> {
    let abs = if raw.len() > 0 && raw[0] == '/' {
        raw
    } else {
        match cwd {
            Some(c) => path_join(c, raw),
            None => raw,
        }
    };
    lexical_text(abs)
}

/// Normalize a user-supplied path argument the same way for every command:
/// relative → joined to `cwd`, then lexically collapsed. No filesystem
/// access (the directory may no longer exist).
pub fn normalize_target(raw: &str, cwd: Option<&str>) -> (r: String)
    ensures
        r@ == target_text(raw@, match cwd { Some(c) => Some(c@), None => None }),
{
    let rc = chars_of(raw);
    if rc.len() > 0 && rc[0] == '/' {
        return normalize_lexical(raw);
    }
    match cwd {
        Some(c) => {
            let abs = join(c, raw);
            normalize_lexical(abs.as_str())
        },
        None => normalize_lexical(raw),
    }
}

/// Containment is decided on whole components: every path is under
/// itself, containment chains, and two paths under each other are the same
/// directory.
pub proof fn law_under_is_a_partial_order(a: Seq<char>, b: Seq<char>, c: Seq<char>)
    ensures
        under(a, a),
        under(a, b) && under(b, c) ==> under(a, c),
        under(a, b) && under(b, a) ==> components(a) == components(b),
{
    if under(a, b) && under(b, a) {
        assert(components(a) =~= components(b));
    }
}

/// A direct child lies under its parent, and the parent does not lie
/// under its child.
pub proof fn law_direct_child_is_strictly_below(child: Seq<char>, parent: Seq<char>)
    ensures
        direct_child(child, parent) ==> under(child, parent) && !under(parent, child),
{
}

} // verus!

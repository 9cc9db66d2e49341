//! SQL `LIKE` patterns that narrow a query to one directory's subtree.
use vstd::prelude::*;
use crate::text::{chars_of, push_char};

verus! {

/// A character with a special meaning in `LIKE ... ESCAPE '\'`.
pub open spec fn is_like_meta(c: char) -> bool {
    c == '\\' || c == '%' || c == '_'
}

/// `s` with every `\`, `%` and `_` preceded by `\`.
pub open spec fn escaped(s: Seq<char>) -> Seq<char>
    decreases s.len(),
{
    if s.len() == 0 {
        Seq::empty()
    } else {
        let prev = escaped(s.drop_last());
        if is_like_meta(s.last()) {
            prev.push('\\').push(s.last())
        } else {
            prev.push(s.last())
        }
    }
}

/// The pattern matching every strict descendant of `parent`: the escaped
/// parent, a separator unless the parent already ends with one, then `%`.
pub open spec fn subtree_pattern(parent: Seq<char>) -> Seq<char> {
    if parent.len() > 0 && parent.last() == '/' {
        escaped(parent).push('%')
    } else {
        escaped(parent).push('/').push('%')
    }
}

/// Escape a string for use inside a `LIKE ... ESCAPE '\'` pattern.
pub fn like_escape(s: &str) -> (r: String)
    ensures
        r@ == escaped(s@),
{
    let cs = chars_of(s);
    let mut out = String::new();
    let mut i: usize = 0;
    while i < cs.len()
        invariant
            i <= cs.len(),
            cs@ == s@,
            out@ == escaped(s@.subrange(0, i as int)),
        decreases cs.len() - i,
    {
        let c = cs[i];
        assert(s@.subrange(0, (i + 1) as int).drop_last() =~= s@.subrange(0, i as int));
        if c == '\\' || c == '%' || c == '_' {
            push_char(&mut out, '\\');
        }
        push_char(&mut out, c);
        i = i + 1;
    }
    assert(s@.subrange(0, cs.len() as int) =~= s@);
    out
}

/// Build the `LIKE ... ESCAPE '\'` pattern that narrows a query to `parent`
/// and nothing shallower: `parent + "/" + "%"`, except when `parent`
/// already ends with the separator (the filesystem root `/`).
pub fn subtree_like_pattern(parent: &str) -> (r: String)
    ensures
        r@ == subtree_pattern(parent@),
{
    let cs = chars_of(parent);
    let mut out = like_escape(parent);
    if !(cs.len() > 0 && cs[cs.len() - 1] == '/') {
        push_char(&mut out, '/');
    }
    push_char(&mut out, '%');
    out
}

} // verus!

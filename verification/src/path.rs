//! Paths as text: joining a path to a directory, the temporary file that
//! stands beside a destination, the extension of a file name, and the
//! expansion of a leading `~`.

use vstd::prelude::*;
use crate::text::{chars_of, push_text, text_of};

verus! {

/// `path` below `root`: an absolute `path` stays as it is, and a `/` is put
/// between the two unless `root` is empty or ends with one.
pub open spec fn joined(root: Seq<char>, path: Seq<char>) -> Seq<char> {
    if path.len() > 0 && path[0] == '/' {
        path
    } else if root.len() > 0 && root.last() != '/' {
        root + seq!['/'] + path
    } else {
        root + path
    }
}

/// The position of the last `/` before `upto`, or -1 where there is none.
pub open spec fn last_slash(s: Seq<char>, upto: int) -> int
    decreases upto,
{
    if upto <= 0 || upto > s.len() {
        -1
    } else if s[upto - 1] == '/' {
        upto - 1
    } else {
        last_slash(s, upto - 1)
    }
}

/// The position of the last `.` before `upto`, or -1 where there is none.
pub open spec fn last_dot(s: Seq<char>, upto: int) -> int
    decreases upto,
{
    if upto <= 0 || upto > s.len() {
        -1
    } else if s[upto - 1] == '.' {
        upto - 1
    } else {
        last_dot(s, upto - 1)
    }
}

/// Where the extension of the last component of `path` begins: at its last
/// `.`, unless that is the first character of the component; at the end of
/// the path where the component has no extension.
pub open spec fn stem_end(path: Seq<char>) -> int {
    let start = last_slash(path, path.len() as int) + 1;
    let dot = last_dot(path, path.len() as int);
    if dot > start {
        dot
    } else {
        path.len() as int
    }
}

/// The temporary file beside `path`: the whole path with `.tmp` behind it.
pub open spec fn temp_sibling(path: Seq<char>) -> Seq<char> {
    path + seq!['.', 't', 'm', 'p']
}

/// The extension of the last component of a path: what follows its last
/// `.`, unless that is the first character of the component.
pub open spec fn extension(path: Seq<char>) -> Seq<char> {
    if stem_end(path) < path.len() {
        path.subrange(stem_end(path) + 1, path.len() as int)
    } else {
        Seq::empty()
    }
}

/// The temporary file beside a path is another file than the path, and
/// different paths have different temporary files.
pub proof fn lemma_temp_sibling_apart(a: Seq<char>, b: Seq<char>)
    ensures
        temp_sibling(a) != a,
        temp_sibling(a) == temp_sibling(b) <==> a == b,
{
    assert(temp_sibling(a).len() == a.len() + 4);
    if temp_sibling(a) == temp_sibling(b) {
        assert(temp_sibling(b).len() == b.len() + 4);
        assert(a =~= temp_sibling(a).subrange(0, a.len() as int));
        assert(b =~= temp_sibling(b).subrange(0, b.len() as int));
    }
}

/// `path` starts with a `~` that stands alone or before a `/`.
pub open spec fn has_tilde(path: Seq<char>) -> bool {
    path.len() > 0 && path[0] == '~' && (path.len() == 1 || path[1] == '/')
}

/// `path` with a leading `~` replaced by the home directory, where there is
/// one and the `~` stands alone or before a `/`; else `path` as it is.
pub open spec fn tilde_expanded(path: Seq<char>, home: Option<Seq<char>>) -> Seq<char> {
    match home {
        Some(h) => if has_tilde(path) {
            h + path.skip(1)
        } else {
            path
        },
        None => path,
    }
}

/// `path` below `root`.
pub fn join_path(root: &str, path: &str) -> (r: String)
    ensures
        r@ == joined(root@, path@),
{
    let p = chars_of(path);
    if p.len() > 0 && p[0] == '/' {
        return text_of(&p);
    }
    let mut out = chars_of(root);
    if out.len() > 0 && out[out.len() - 1] != '/' {
        out.push('/');
    }
    push_text(&mut out, path);
    text_of(&out)
}

/// Where the extension of the last component of a path begins.
pub fn stem_end_of(p: &Vec<char>) -> (end: usize)
    ensures
        end == stem_end(p@),
        end <= p.len(),
{
    let mut start: usize = p.len();
    while start > 0 && p[start - 1] != '/'
        invariant
            start <= p.len(),
            last_slash(p@, p@.len() as int) == last_slash(p@, start as int),
        decreases start,
    {
        start -= 1;
    }
    let mut dot: usize = p.len();
    while dot > 0 && p[dot - 1] != '.'
        invariant
            dot <= p.len(),
            last_dot(p@, p@.len() as int) == last_dot(p@, dot as int),
        decreases dot,
    {
        dot -= 1;
    }
    // `dot` is one behind the last `.`, or 0; `start` is where the last component begins.
    if dot > 0 && dot - 1 > start {
        dot - 1
    } else {
        p.len()
    }
}

/// The temporary file beside `path`.
pub fn temp_path(path: &str) -> (r: String)
    ensures
        r@ == temp_sibling(path@),
{
    let mut out = chars_of(path);
    out.push('.');
    out.push('t');
    out.push('m');
    out.push('p');
    text_of(&out)
}

/// `shellexpand::tilde_with_context` with a home directory that is known:
/// a `~` at the start of the input, alone or before a `/`, is replaced by
/// the home directory; any other input comes back as it is. The input may
/// not start with `~\`, which the outside function expands on some systems
/// only.
#[verifier::external_body]
fn expand_with_home(path: &str, home: &str) -> (r: String)
    requires
        !(path@.len() > 1 && path@[0] == '~' && path@[1] == '\\'),
    ensures
        r@ == tilde_expanded(path@, Some(home@)),
{
    shellexpand::tilde_with_context(path, || Some(home)).into_owned()
}

/// `path` with a leading `~` replaced by the home directory, where one is
/// given and the `~` stands alone or before a `/`.
pub fn expand_tilde(path: &str, home: Option<&str>) -> (r: String)
    ensures
        r@ == tilde_expanded(path@, match home {
            Some(h) => Some(h@),
            None => None,
        }),
{
    match home {
        None => path.to_owned(),
        Some(h) => {
            let p = chars_of(path);
            if p.len() > 1 && p[0] == '~' && p[1] == '\\' {
                path.to_owned()
            } else {
                expand_with_home(path, h)
            }
        },
    }
}

} // verus!

//! Slash-separated paths as character sequences: their components, the
//! name of a directory's parent, and joining a name onto a directory.

use vstd::prelude::*;

use crate::text::{chars_of, string_of};

verus! {

/// Add a finished segment to the components, unless it is empty or `.`
/// (repeated separators and `.` segments name no component).
pub open spec fn flush(done: Seq<Seq<char>>, cur: Seq<char>) -> Seq<Seq<char>> {
    if cur.len() == 0 || cur == seq!['.'] {
        done
    } else {
        done.push(cur)
    }
}

/// Reading `p` left to right: the components finished so far and the
/// segment in progress.
pub open spec fn split_acc(p: Seq<char>) -> (Seq<Seq<char>>, Seq<char>)
    decreases p.len(),
{
    if p.len() == 0 {
        (Seq::empty(), Seq::empty())
    } else {
        let (done, cur) = split_acc(p.drop_last());
        if p.last() == '/' {
            (flush(done, cur), Seq::empty())
        } else {
            (done, cur.push(p.last()))
        }
    }
}

/// The components of a path: its `/`-separated segments, less empty and
/// `.` ones. `/repo/.tix/` has the components `repo` and `.tix`.
pub open spec fn components(p: Seq<char>) -> Seq<Seq<char>> {
    let (done, cur) = split_acc(p);
    flush(done, cur)
}

/// The name of the directory that holds `p`, if it has one (`/repo/.tix`
/// gives `repo`; `/.tix`, `.tix` and `../.tix` give none).
pub open spec fn parent_name(p: Seq<char>) -> Option<Seq<char>> {
    let c = components(p);
    if c.len() >= 2 && c[c.len() - 2] != seq!['.', '.'] {
        Some(c[c.len() - 2])
    } else {
        None
    }
}

/// `name` inside directory `dir`: `dir/name`, without doubling a trailing
/// separator; an empty `dir` gives `name`.
pub open spec fn joined(dir: Seq<char>, name: Seq<char>) -> Seq<char> {
    if dir.len() == 0 {
        name
    } else if dir.last() == '/' {
        dir + name
    } else {
        dir + seq!['/'] + name
    }
}

/// Whether a path is absolute (starts at the root).
pub open spec fn is_absolute(p: Seq<char>) -> bool {
    p.len() > 0 && p[0] == '/'
}

fn is_dot(cur: &Vec<char>) -> (r: bool)
    ensures
        r == (cur@ == seq!['.']),
{
    if cur.len() == 1 && cur[0] == '.' {
        assert(cur@ =~= seq!['.']);
        true
    } else {
        false
    }
}

/// The components of a path.
pub fn path_components(p: &str) -> (r: Vec<Vec<char>>)
    ensures
        r@.map_values(|v: Vec<char>| v@) == components(p@),
{
    let chars = chars_of(p);
    let mut done: Vec<Vec<char>> = Vec::new();
    let mut cur: Vec<char> = Vec::new();
    let mut i: usize = 0;
    while i < chars.len()
        invariant
            i <= chars.len(),
            chars@ == p@,
            split_acc(chars@.take(i as int)) == (done@.map_values(|v: Vec<char>| v@), cur@),
        decreases chars.len() - i,
    {
        assert(chars@.take(i + 1).drop_last() =~= chars@.take(i as int));
        let ghost before = done@.map_values(|v: Vec<char>| v@);
        if chars[i] == '/' {
            if cur.len() > 0 && !is_dot(&cur) {
                let ghost cv = cur@;
                done.push(cur);
                assert(done@.map_values(|v: Vec<char>| v@) =~= before.push(cv));
            }
            cur = Vec::new();
        } else {
            cur.push(chars[i]);
        }
        i = i + 1;
    }
    assert(chars@.take(chars.len() as int) =~= chars@);
    let ghost before = done@.map_values(|v: Vec<char>| v@);
    if cur.len() > 0 && !is_dot(&cur) {
        let ghost cv = cur@;
        done.push(cur);
        assert(done@.map_values(|v: Vec<char>| v@) =~= before.push(cv));
    }
    done
}

/// The name of the directory that holds `p`, if it has one.
pub fn parent_dir_name(p: &str) -> (r: Option<String>)
    ensures
        match r {
            Some(s) => parent_name(p@) == Some(s@),
            None => parent_name(p@) is None,
        },
{
    let c = path_components(p);
    let ghost cs = c@.map_values(|v: Vec<char>| v@);
    if c.len() >= 2 {
        let name = &c[c.len() - 2];
        assert(cs[c.len() - 2] == name@);
        if name.len() == 2 && name[0] == '.' && name[1] == '.' {
            assert(name@ =~= seq!['.', '.']);
            None
        } else {
            Some(string_of(name))
        }
    } else {
        None
    }
}

/// `name` inside directory `dir`.
pub fn join(dir: &str, name: &str) -> (r: String)
    ensures
        r@ == joined(dir@, name@),
{
    let mut out = chars_of(dir);
    let mut tail = chars_of(name);
    if out.len() > 0 && out[out.len() - 1] != '/' {
        out.push('/');
    }
    out.append(&mut tail);
    string_of(&out)
}

/// Whether a path is absolute.
pub fn path_is_absolute(p: &str) -> (r: bool)
    ensures
        r == is_absolute(p@),
{
    let c = chars_of(p);
    c.len() > 0 && c[0] == '/'
}

} // verus!

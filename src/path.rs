//! File paths as `/`-separated text: joining, final names and object names.

use vstd::prelude::*;
use crate::text::{chars_of, spells, split_chars, split_on, string_of, views, push_str};

verus! {

/// `p` resolved against `dir`, as `Path::join` does: an absolute `p` stands
/// alone; otherwise one separator goes between them when `dir` is non-empty
/// and does not already end in one.
pub open spec fn join_path(dir: Seq<char>, p: Seq<char>) -> Seq<char> {
    if p.len() > 0 && p[0] == '/' {
        p
    } else if dir.len() == 0 || dir.last() == '/' {
        dir + p
    } else {
        dir + seq!['/'] + p
    }
}

/// The last named component among `parts`, skipping empty and `.` ones;
/// `None` when there is none or it is `..`.
pub open spec fn last_named(parts: Seq<Seq<char>>) -> Option<Seq<char>>
    decreases parts.len(),
{
    if parts.len() == 0 {
        None
    } else if parts.last() == Seq::<char>::empty() || parts.last() == "."@ {
        last_named(parts.drop_last())
    } else if parts.last() == ".."@ {
        None
    } else {
        Some(parts.last())
    }
}

/// The final component of a path, as `Path::file_name` gives it.
pub open spec fn file_name(p: Seq<char>) -> Option<Seq<char>> {
    last_named(split_on(p, '/'))
}

/// The index of the last `.` in `s`, or -1.
pub open spec fn last_dot(s: Seq<char>) -> int
    decreases s.len(),
{
    if s.len() == 0 {
        -1
    } else if s.last() == '.' {
        s.len() - 1
    } else {
        last_dot(s.drop_last())
    }
}

/// A file name without its extension, as `Path::file_stem` gives it: cut
/// at the last `.`, unless that dot opens the name.
pub open spec fn file_stem(name: Seq<char>) -> Seq<char> {
    if last_dot(name) > 0 {
        name.take(last_dot(name))
    } else {
        name
    }
}

/// Where the object of source `file` goes under `dir`: the source's final
/// name with its extension replaced by `o`. `None` when `file` has no final
/// name.
pub open spec fn object_path_of(dir: Seq<char>, file: Seq<char>) -> Option<Seq<char>> {
    match file_name(file) {
        Some(name) => Some(join_path(dir, file_stem(name)) + ".o"@),
        None => None,
    }
}

/// Joins `p` onto `dir`.
pub fn join(dir: &str, p: &str) -> (r: String)
    ensures
        r@ == join_path(dir@, p@),
{
    let dc = chars_of(dir);
    let pc = chars_of(p);
    let mut r = String::new();
    if pc.len() > 0 && pc[0] == '/' {
        push_str(&mut r, p);
        return r;
    }
    push_str(&mut r, dir);
    if dc.len() > 0 && dc[dc.len() - 1] != '/' {
        push_str(&mut r, "/");
        proof {
            reveal_strlit("/");
        }
    }
    push_str(&mut r, p);
    r
}

/// The final component of `p`.
pub fn path_file_name(p: &str) -> (r: Option<Vec<char>>)
    ensures
        match file_name(p@) {
            Some(n) => r matches Some(v) && v@ == n,
            None => r is None,
        },
{
    let pc = chars_of(p);
    let parts = split_chars(&pc, '/');
    let ghost all = views(parts@);
    let mut i: usize = parts.len();
    assert(all.take(i as int) == all);
    while i > 0
        invariant
            i <= parts.len(),
            all == views(parts@),
            all.len() == parts.len(),
            last_named(all.take(i as int)) == file_name(p@),
        decreases i,
    {
        let ghost t = all.take(i as int);
        assert(t.drop_last() == all.take(i - 1));
        assert(t.last() == parts@[i - 1]@);
        let part = &parts[i - 1];
        if part.len() == 0 {
            assert(part@ =~= Seq::<char>::empty());
        }
        if part.len() == 0 || spells(part, ".") {
            i = i - 1;
        } else if spells(part, "..") {
            return None;
        } else {
            let mut v: Vec<char> = Vec::new();
            for k in 0..part.len()
                invariant
                    v@ == part@.take(k as int),
            {
                v.push(part[k]);
                assert(part@.take(k + 1) == part@.take(k as int).push(part@[k as int]));
            }
            assert(part@.take(part.len() as int) == part@);
            return Some(v);
        }
    }
    assert(all.take(0) == Seq::<Seq<char>>::empty());
    None
}

/// The stem of the file name `name`.
fn stem_of(name: &Vec<char>) -> (r: String)
    ensures
        r@ == file_stem(name@),
{
    let mut i: usize = name.len();
    assert(name@.take(i as int) == name@);
    while i > 0 && name[i - 1] != '.'
        invariant
            i <= name.len(),
            last_dot(name@.take(i as int)) == last_dot(name@),
        decreases i,
    {
        assert(name@.take(i as int).drop_last() == name@.take(i - 1));
        i = i - 1;
    }
    if i > 0 {
        assert(name@.take(i as int).last() == '.');
    }
    if i > 1 {
        let end = i - 1;
        let mut v: Vec<char> = Vec::new();
        for k in 0..end
            invariant
                end < name.len(),
                v@ == name@.take(k as int),
        {
            v.push(name[k]);
            assert(name@.take(k + 1) == name@.take(k as int).push(name@[k as int]));
        }
        string_of(&v)
    } else {
        string_of(name)
    }
}

/// The object path of source `file` under `dir`.
pub fn object_path(dir: &str, file: &str) -> (r: Option<String>)
    ensures
        match object_path_of(dir@, file@) {
            Some(o) => r matches Some(s) && s@ == o,
            None => r is None,
        },
{
    match path_file_name(file) {
        None => None,
        Some(name) => {
            let stem = stem_of(&name);
            let mut r = join(dir, stem.as_str());
            push_str(&mut r, ".o");
            Some(r)
        },
    }
}

} // verus!

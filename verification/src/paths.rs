//! Slash-separated path strings: the final component, its extension, and
//! joining, with the meanings that `std::path::Path` gives them for Unix
//! paths.

use vstd::prelude::*;
use crate::text::{chars_of, string_from_chars};

verus! {

/// The index of the last `c` in `s`, or -1 when `s` holds none.
pub open spec fn last_index_of(s: Seq<char>, c: char) -> int
    decreases s.len(),
{
    if s.len() == 0 {
        -1
    } else if s.last() == c {
        s.len() - 1
    } else {
        last_index_of(s.drop_last(), c)
    }
}

/// Where the last occurrence can stand, and that nothing equal to `c` follows it.
pub proof fn lemma_last_index_bounds(s: Seq<char>, c: char)
    ensures
        -1 <= last_index_of(s, c) < s.len(),
        last_index_of(s, c) >= 0 ==> s[last_index_of(s, c)] == c,
        forall|j: int| last_index_of(s, c) < j < s.len() ==> s[j] != c,
    decreases s.len(),
{
    if s.len() > 0 && s.last() != c {
        lemma_last_index_bounds(s.drop_last(), c);
        assert forall|j: int| last_index_of(s, c) < j < s.len() implies s[j] != c by {
            if j < s.len() - 1 {
                assert(s[j] == s.drop_last()[j]);
            }
        }
    }
}

proof fn lemma_file_name_step(q: Seq<char>)
    ensures
        ({
            let k = last_index_of(q, '/');
            let seg = q.subrange(k + 1, q.len() as int);
            &&& -1 <= k < q.len()
            &&& (seg.len() == 0 || seg == seq!['.']) ==> file_name(q) == (if k >= 0 {
                file_name(q.take(k))
            } else {
                None
            })
            &&& !(seg.len() == 0 || seg == seq!['.']) && seg == seq!['.', '.'] ==> file_name(
                q,
            ) is None
            &&& !(seg.len() == 0 || seg == seq!['.']) && seg != seq!['.', '.'] ==> file_name(q)
                == Some(seg)
        }),
{
    lemma_last_index_bounds(q, '/');
}

/// The last component of `p`, as `Path::file_name` gives it: trailing
/// separators and `.` components are skipped, and a final `..` has none.
pub open spec fn file_name(p: Seq<char>) -> Option<Seq<char>>
    decreases p.len(),
{
    let k = last_index_of(p, '/');
    let seg = p.subrange(k + 1, p.len() as int);
    if seg.len() == 0 || seg == seq!['.'] {
        if k >= 0 {
            proof {
                lemma_last_index_bounds(p, '/');
            }
            file_name(p.take(k))
        } else {
            None
        }
    } else if seg == seq!['.', '.'] {
        None
    } else {
        Some(seg)
    }
}

/// The extension of `p`, as `Path::extension` gives it: the part of the
/// file name after its last `.`, unless that dot is the name's first
/// character.
pub open spec fn extension(p: Seq<char>) -> Option<Seq<char>> {
    match file_name(p) {
        None => None,
        Some(name) => {
            let d = last_index_of(name, '.');
            if d <= 0 {
                None
            } else {
                Some(name.subrange(d + 1, name.len() as int))
            }
        },
    }
}

/// The stem of `p`, as `Path::file_stem` gives it: the file name up to
/// its last `.`, or the whole name when it has no `.` past its first
/// character.
pub open spec fn file_stem(p: Seq<char>) -> Option<Seq<char>> {
    match file_name(p) {
        None => None,
        Some(name) => {
            let d = last_index_of(name, '.');
            if d <= 0 {
                Some(name)
            } else {
                Some(name.take(d))
            }
        },
    }
}

/// `rel` appended to `base` as `PathBuf::push` does: an absolute `rel`
/// replaces `base`, otherwise a separator is put between them when `base`
/// is non-empty and does not already end with one.
pub open spec fn joined(base: Seq<char>, rel: Seq<char>) -> Seq<char> {
    if rel.len() > 0 && rel[0] == '/' {
        rel
    } else if base.len() > 0 && base.last() != '/' {
        base + seq!['/'] + rel
    } else {
        base + rel
    }
}

fn last_index_before(cs: &Vec<char>, e: usize, c: char) -> (r: Option<usize>)
    requires
        e <= cs@.len(),
    ensures
        match r {
            Some(k) => k as int == last_index_of(cs@.take(e as int), c),
            None => last_index_of(cs@.take(e as int), c) == -1,
        },
{
    let mut j: usize = e;
    while j > 0 && cs[j - 1] != c
        invariant
            j <= e <= cs@.len(),
            last_index_of(cs@.take(e as int), c) == last_index_of(cs@.take(j as int), c),
        decreases j,
    {
        proof {
            assert(cs@.take(j as int).drop_last() =~= cs@.take((j - 1) as int));
        }
        j = j - 1;
    }
    if j == 0 {
        proof {
            assert(cs@.take(0) =~= Seq::<char>::empty());
        }
        None
    } else {
        Some(j - 1)
    }
}

fn sub_chars(cs: &Vec<char>, from: usize, to: usize) -> (r: Vec<char>)
    requires
        from <= to <= cs@.len(),
    ensures
        r@ == cs@.subrange(from as int, to as int),
{
    let mut out: Vec<char> = Vec::new();
    let mut i = from;
    while i < to
        invariant
            from <= i <= to <= cs@.len(),
            out@ == cs@.subrange(from as int, i as int),
        decreases to - i,
    {
        out.push(cs[i]);
        i = i + 1;
        proof {
            assert(cs@.subrange(from as int, i as int) =~= cs@.subrange(
                from as int,
                (i - 1) as int,
            ).push(cs@[i - 1]));
        }
    }
    out
}

/// The last component of the path `p`.
pub fn path_file_name(p: &str) -> (r: Option<String>)
    ensures
        match r {
            Some(s) => file_name(p@) == Some(s@),
            None => file_name(p@) is None,
        },
{
    let cs = chars_of(p);
    let mut e: usize = cs.len();
    proof {
        assert(cs@.take(e as int) =~= p@);
    }
    loop
        invariant
            cs@ == p@,
            e <= cs@.len(),
            file_name(p@) == file_name(cs@.take(e as int)),
        decreases e,
    {
        let ghost q = cs@.take(e as int);
        let k = last_index_before(&cs, e, '/');
        proof {
            lemma_file_name_step(q);
        }
        let start: usize = match k {
            Some(k) => k + 1,
            None => 0,
        };
        let seg = sub_chars(&cs, start, e);
        proof {
            assert(seg@ =~= q.subrange(last_index_of(q, '/') + 1, q.len() as int));
        }
        let empty_or_dot = seg.len() == 0 || (seg.len() == 1 && seg[0] == '.');
        proof {
            if seg@.len() == 1 && seg@[0] == '.' {
                assert(seg@ =~= seq!['.']);
            }
            if seg@ == seq!['.'] {
                assert(seg@[0] == '.');
            }
        }
        if empty_or_dot {
            match k {
                Some(k) => {
                    proof {
                        assert(q.take(k as int) =~= cs@.take(k as int));
                    }
                    e = k;
                },
                None => {
                    return None;
                },
            }
        } else {
            let dot_dot = seg.len() == 2 && seg[0] == '.' && seg[1] == '.';
            proof {
                if dot_dot {
                    assert(seg@ =~= seq!['.', '.']);
                }
                if seg@ == seq!['.', '.'] {
                    assert(seg@[0] == '.' && seg@[1] == '.');
                }
            }
            if dot_dot {
                return None;
            } else {
                return Some(string_from_chars(seg.as_slice()));
            }
        }
    }
}

/// The extension of the path `p`.
pub fn path_extension(p: &str) -> (r: Option<String>)
    ensures
        match r {
            Some(s) => extension(p@) == Some(s@),
            None => extension(p@) is None,
        },
{
    match path_file_name(p) {
        None => None,
        Some(name) => {
            let cs = chars_of(name.as_str());
            let d = last_index_before(&cs, cs.len(), '.');
            proof {
                assert(cs@.take(cs@.len() as int) =~= cs@);
                lemma_last_index_bounds(cs@, '.');
            }
            match d {
                None => None,
                Some(d) => {
                    if d == 0 {
                        None
                    } else {
                        let ext = sub_chars(&cs, d + 1, cs.len());
                        Some(string_from_chars(ext.as_slice()))
                    }
                },
            }
        },
    }
}

/// The stem of the path `p`.
pub fn path_file_stem(p: &str) -> (r: Option<String>)
    ensures
        match r {
            Some(s) => file_stem(p@) == Some(s@),
            None => file_stem(p@) is None,
        },
{
    match path_file_name(p) {
        None => None,
        Some(name) => {
            let cs = chars_of(name.as_str());
            let d = last_index_before(&cs, cs.len(), '.');
            proof {
                assert(cs@.take(cs@.len() as int) =~= cs@);
                lemma_last_index_bounds(cs@, '.');
            }
            match d {
                Some(d) if d > 0 => {
                    let stem = sub_chars(&cs, 0, d);
                    proof {
                        assert(stem@ =~= cs@.take(d as int));
                    }
                    Some(string_from_chars(stem.as_slice()))
                },
                _ => Some(name),
            }
        },
    }
}

/// `rel` appended to the path `base`.
pub fn path_join(base: &str, rel: &str) -> (r: String)
    ensures
        r@ == joined(base@, rel@),
{
    let b = chars_of(base);
    let x = chars_of(rel);
    if x.len() > 0 && x[0] == '/' {
        return string_from_chars(x.as_slice());
    }
    let mut out = string_from_chars(b.as_slice());
    if b.len() > 0 && b[b.len() - 1] != '/' {
        out.push('/');
    }
    out.append(rel);
    proof {
        if b@.len() > 0 && b@.last() != '/' {
            assert(b@.push('/') =~= b@ + seq!['/']);
        }
    }
    out
}

} // verus!

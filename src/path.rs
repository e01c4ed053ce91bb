use vstd::prelude::*;
use crate::text::{chars_of, run_texts, runs};

verus! {

/// A path is absolute when it starts with `/`.
pub open spec fn is_absolute(p: Seq<char>) -> bool {
    p.len() > 0 && p[0] == '/'
}

/// The non-empty pieces of a path between its `/` separators.
pub open spec fn segments(p: Seq<char>) -> Seq<Seq<char>> {
    runs(p, false)
}

pub open spec fn depth(p: Seq<char>) -> nat {
    segments(p).len()
}

/// `path` is `dir` or lies below it: both absolute or both relative, and the
/// segments of `dir` begin those of `path`.
pub open spec fn lies_under(dir: Seq<char>, path: Seq<char>) -> bool {
    &&& is_absolute(dir) == is_absolute(path)
    &&& segments(dir).len() <= segments(path).len()
    &&& segments(path).take(segments(dir).len() as int) == segments(dir)
}

/// `a` and `b` name the same place: equal but for repeated or trailing
/// separators.
pub open spec fn same_path(a: Seq<char>, b: Seq<char>) -> bool {
    is_absolute(a) == is_absolute(b) && segments(a) == segments(b)
}

/// The segments of `path` below `dir`.
pub open spec fn below(dir: Seq<char>, path: Seq<char>) -> Seq<Seq<char>> {
    segments(path).skip(segments(dir).len() as int)
}

/// Segments joined by single separators.
pub open spec fn joined(segs: Seq<Seq<char>>) -> Seq<char>
    decreases segs.len(),
{
    if segs.len() == 0 {
        seq![]
    } else if segs.len() == 1 {
        segs[0]
    } else {
        joined(segs.drop_last()) + seq!['/'] + segs.last()
    }
}

/// `rel` appended to `base` with one separator between them, unless `base`
/// is empty or already ends with one.
pub open spec fn pushed(base: Seq<char>, rel: Seq<char>) -> Seq<char> {
    if base.len() == 0 || base.last() == '/' {
        base + rel
    } else {
        base + seq!['/'] + rel
    }
}

/// The path's segments joined as a relative path.
pub open spec fn relative(p: Seq<char>) -> Seq<char> {
    joined(segments(p))
}

pub fn is_absolute_path(p: &str) -> (r: bool)
    ensures
        r == is_absolute(p@),
{
    let cs = chars_of(p);
    cs.len() > 0 && cs[0] == '/'
}

pub fn segments_of(p: &str) -> (r: Vec<String>)
    ensures
        r.deep_view() == segments(p@),
{
    run_texts(p, false)
}

/// Whether the segments `a` begin the segments `b`.
pub fn begins(a: &Vec<String>, b: &Vec<String>) -> (r: bool)
    ensures
        r == (a.deep_view().len() <= b.deep_view().len() && b.deep_view().take(
            a.deep_view().len() as int,
        ) == a.deep_view()),
{
    if a.len() > b.len() {
        return false;
    }
    let mut i: usize = 0;
    while i < a.len()
        invariant
            a.len() <= b.len(),
            i <= a.len(),
            forall|j: int| 0 <= j < i ==> a@[j]@ == b@[j]@,
        decreases a.len() - i,
    {
        if a[i] != b[i] {
            assert(a.deep_view()[i as int] != b.deep_view().take(a.deep_view().len() as int)[i as int]);
            return false;
        }
        i = i + 1;
    }
    assert(b.deep_view().take(a.deep_view().len() as int) =~= a.deep_view());
    true
}

pub fn same_segments(a: &Vec<String>, b: &Vec<String>) -> (r: bool)
    ensures
        r == (a.deep_view() == b.deep_view()),
{
    if a.len() != b.len() {
        assert(a.deep_view().len() != b.deep_view().len());
        return false;
    }
    let r = begins(a, b);
    assert(b.deep_view().take(a.deep_view().len() as int) =~= b.deep_view());
    r
}

/// Joins `segs[from..]` with single separators.
pub fn join_from(segs: &Vec<String>, from: usize) -> (r: String)
    requires
        from <= segs@.len(),
    ensures
        r@ == joined(segs.deep_view().skip(from as int)),
{
    let mut out = String::new();
    let mut i = from;
    while i < segs.len()
        invariant
            from <= i <= segs@.len(),
            out@ == joined(segs.deep_view().subrange(from as int, i as int)),
        decreases segs.len() - i,
    {
        let ghost prev = segs.deep_view().subrange(from as int, i as int);
        let ghost next = segs.deep_view().subrange(from as int, i + 1);
        assert(next.drop_last() == prev);
        assert(next.last() == segs@[i as int]@);
        if i > from {
            out.append("/");
            proof {
                reveal_strlit("/");
            }
        } else {
            assert(prev.len() == 0);
        }
        out.append(segs[i].as_str());
        i = i + 1;
    }
    assert(segs.deep_view().subrange(from as int, segs@.len() as int) == segs.deep_view().skip(
        from as int,
    ));
    out
}

/// `rel` appended to `base` as a path.
pub fn push_path(base: &str, rel: &str) -> (r: String)
    ensures
        r@ == pushed(base@, rel@),
{
    let cs = chars_of(base);
    let mut out = base.to_owned();
    if cs.len() > 0 && cs[cs.len() - 1] != '/' {
        out.append("/");
        proof {
            reveal_strlit("/");
        }
    }
    out.append(rel);
    out
}

/// The name of the last segment of `p`; none where `p` has no segment or
/// ends in `..`.
pub open spec fn file_name(p: Seq<char>) -> Option<Seq<char>> {
    let s = segments(p);
    if s.len() == 0 || s.last() == seq!['.', '.'] {
        None
    } else {
        Some(s.last())
    }
}

} // verus!

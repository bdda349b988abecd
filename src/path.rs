//! Lexical normalisation of filesystem paths.
use vstd::prelude::*;

verus! {

/// The segment `.`.
pub open spec fn dot() -> Seq<char> {
    seq!['.']
}

/// The segment `..`.
pub open spec fn dot_dot() -> Seq<char> {
    seq!['.', '.']
}

/// The texts of a list of strings.
pub open spec fn texts(s: Seq<String>) -> Seq<Seq<char>> {
    s.map_values(|x: String| x@)
}

/// The segments kept once `seg` is read after `stack`: an empty segment or
/// `.` adds nothing, `..` takes out the segment before it (if any), any
/// other segment is kept.
pub open spec fn push_segment(stack: Seq<Seq<char>>, seg: Seq<char>) -> Seq<Seq<char>> {
    if seg.len() == 0 || seg == dot() {
        stack
    } else if seg == dot_dot() {
        if stack.len() > 0 {
            stack.drop_last()
        } else {
            stack
        }
    } else {
        stack.push(seg)
    }
}

/// Reading `p` from the left: the segments kept so far, and the segment
/// still being read.
pub open spec fn scan(p: Seq<char>) -> (Seq<Seq<char>>, Seq<char>)
    decreases p.len(),
{
    if p.len() == 0 {
        (Seq::empty(), Seq::empty())
    } else {
        let before = scan(p.drop_last());
        if p.last() == '/' {
            (push_segment(before.0, before.1), Seq::empty())
        } else {
            (before.0, before.1.push(p.last()))
        }
    }
}

/// The segments that `p` keeps once it has been read whole.
pub open spec fn segments(p: Seq<char>) -> Seq<Seq<char>> {
    push_segment(scan(p).0, scan(p).1)
}

/// Each segment preceded by a slash.
pub open spec fn join(segs: Seq<Seq<char>>) -> Seq<char>
    decreases segs.len(),
{
    if segs.len() == 0 {
        Seq::empty()
    } else {
        join(segs.drop_last()) + seq!['/'] + segs.last()
    }
}

/// `p` as an absolute path without empty or `.` segments, each `..`
/// resolved against the segment before it; the root is `/`.
pub open spec fn normal_path(p: Seq<char>) -> Seq<char> {
    if join(segments(p)).len() == 0 {
        seq!['/']
    } else {
        join(segments(p))
    }
}

fn push_segment_of(stack: &mut Vec<String>, p: &str, start: usize, end: usize)
    requires
        start <= end <= p@.len(),
    ensures
        texts(final(stack)@) == push_segment(texts(old(stack)@), p@.subrange(start as int, end as int)),
{
    let ghost seg = p@.subrange(start as int, end as int);
    let len = end - start;
    if len == 0 {
        return;
    }
    let c0 = p.get_char(start);
    if len == 1 && c0 == '.' {
        assert(seg =~= dot());
        return;
    }
    if len == 2 && c0 == '.' && p.get_char(start + 1) == '.' {
        assert(seg =~= dot_dot());
        if stack.len() > 0 {
            let _ = stack.pop();
            assert(texts(stack@) =~= texts(old(stack)@).drop_last());
        }
        return;
    }
    assert(seg[0] == c0);
    assert(seg != dot()) by {
        if seg == dot() {
            assert(seg.len() == 1 && seg[0] == '.');
        }
    }
    assert(seg != dot_dot()) by {
        if seg == dot_dot() {
            assert(seg.len() == 2 && seg[0] == '.' && seg[1] == '.');
            assert(seg[1] == p@[start + 1]);
        }
    }
    let s = p.substring_char(start, end).to_owned();
    stack.push(s);
    assert(texts(stack@) =~= texts(old(stack)@).push(seg));
}

/// `p` normalised without looking at the filesystem: see `normal_path`.
pub fn normalize(p: &str) -> (r: String)
    ensures
        r@ == normal_path(p@),
{
    let n = p.unicode_len();
    let mut stack: Vec<String> = Vec::new();
    let mut start: usize = 0;
    let mut i: usize = 0;
    assert(p@.subrange(0, 0) =~= Seq::<char>::empty());
    assert(texts(stack@) =~= Seq::<Seq<char>>::empty());
    while i < n
        invariant
            n == p@.len(),
            start <= i <= n,
            texts(stack@) == scan(p@.subrange(0, i as int)).0,
            p@.subrange(start as int, i as int) == scan(p@.subrange(0, i as int)).1,
        decreases n - i,
    {
        proof {
            assert(p@.subrange(0, i + 1).drop_last() =~= p@.subrange(0, i as int));
        }
        let c = p.get_char(i);
        if c == '/' {
            push_segment_of(&mut stack, p, start, i);
            start = i + 1;
            assert(p@.subrange(start as int, i + 1) =~= Seq::<char>::empty());
        } else {
            assert(p@.subrange(start as int, i + 1) =~= p@.subrange(start as int, i as int).push(c));
        }
        i += 1;
    }
    assert(p@.subrange(0, n as int) =~= p@);
    push_segment_of(&mut stack, p, start, n);
    let ghost segs = texts(stack@);
    assert(segs == segments(p@));
    let mut r = String::new();
    let mut k: usize = 0;
    assert(segs.subrange(0, 0) =~= Seq::<Seq<char>>::empty());
    while k < stack.len()
        invariant
            k <= stack@.len(),
            segs == texts(stack@),
            r@ == join(segs.subrange(0, k as int)),
        decreases stack.len() - k,
    {
        proof {
            reveal_strlit("/");
            assert(segs.subrange(0, k + 1).drop_last() =~= segs.subrange(0, k as int));
        }
        r.append("/");
        r.append(stack[k].as_str());
        assert(r@ =~= join(segs.subrange(0, k as int)) + seq!['/'] + segs[k as int]);
        k += 1;
    }
    assert(segs.subrange(0, k as int) =~= segs);
    if r.as_str().unicode_len() == 0 {
        proof {
            reveal_strlit("/");
        }
        let root = String::from_str("/");
        assert(root@ =~= seq!['/']);
        root
    } else {
        r
    }
}

} // verus!

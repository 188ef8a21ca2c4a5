//! Splitting a decoded path into segments, and the parent-traversal guard.
use vstd::prelude::*;
use vstd::string::*;
use crate::error::ResolveError;
use crate::text::{push_char, same_text};

verus! {

broadcast use vstd::seq::Seq::lemma_filter_push;

/// `s` cut at every `sep`, empty pieces included.
pub open spec fn split_on(s: Seq<char>, sep: char) -> Seq<Seq<char>>
    decreases s.len(),
{
    if s.len() == 0 {
        seq![Seq::empty()]
    } else {
        let p = split_on(s.drop_last(), sep);
        if s.last() == sep {
            p.push(Seq::empty())
        } else {
            p.update(p.len() - 1, p.last().push(s.last()))
        }
    }
}

/// The non-empty pieces of `s` between slashes.
pub open spec fn path_segments(s: Seq<char>) -> Seq<Seq<char>> {
    split_on(s, '/').filter(|x: Seq<char>| x.len() > 0)
}

/// The texts of a vector of strings.
pub open spec fn string_views(v: Seq<String>) -> Seq<Seq<char>> {
    v.map_values(|x: String| x@)
}

/// The parent-traversal token.
pub open spec fn parent_token() -> Seq<char> {
    seq!['.', '.']
}

proof fn lemma_split_nonempty(s: Seq<char>, sep: char)
    ensures
        split_on(s, sep).len() >= 1,
    decreases s.len(),
{
    if s.len() > 0 {
        lemma_split_nonempty(s.drop_last(), sep);
    }
}

/// The non-empty pieces of `path` between slashes, in order.
pub fn split_segments(path: &str) -> (r: Vec<String>)
    ensures
        string_views(r@) == path_segments(path@),
{
    let n = path.unicode_len();
    let mut done: Vec<String> = Vec::new();
    let mut cur = String::new();
    let mut i: usize = 0;
    let ghost pred = |x: Seq<char>| x.len() > 0;
    assert(path@.subrange(0, 0) =~= Seq::<char>::empty());
    assert(string_views(done@) =~= Seq::<Seq<char>>::empty());
    while i < n
        invariant
            n == path@.len(),
            i <= n,
            pred == (|x: Seq<char>| x.len() > 0),
            split_on(path@.subrange(0, i as int), '/').len() >= 1,
            string_views(done@) == split_on(path@.subrange(0, i as int), '/').drop_last().filter(pred),
            cur@ == split_on(path@.subrange(0, i as int), '/').last(),
        decreases n - i,
    {
        let ghost pre = path@.subrange(0, i as int);
        let ghost sp = split_on(pre, '/');
        let c = path.get_char(i);
        let ghost next = path@.subrange(0, i + 1);
        assert(next.drop_last() =~= pre);
        assert(next.last() == c);
        if c == '/' {
            assert(split_on(next, '/') == sp.push(Seq::empty()));
            assert(sp.push(Seq::empty()).drop_last() =~= sp);
            assert(sp =~= sp.drop_last().push(sp.last()));
            if cur.unicode_len() > 0 {
                let ghost before = done@;
                done.push(cur);
                assert(string_views(done@) =~= string_views(before).push(sp.last()));
            }
            cur = String::new();
        } else {
            push_char(&mut cur, c);
            assert(split_on(next, '/').drop_last() =~= sp.drop_last());
        }
        i += 1;
    }
    let ghost sp = split_on(path@, '/');
    assert(path@.subrange(0, n as int) =~= path@);
    assert(sp =~= sp.drop_last().push(sp.last()));
    if cur.unicode_len() > 0 {
        let ghost before = done@;
        done.push(cur);
        assert(string_views(done@) =~= string_views(before).push(sp.last()));
    }
    done
}

/// Whether `s` is exactly the parent-traversal token.
pub fn is_parent_token(s: &str) -> (r: bool)
    ensures
        r == (s@ == parent_token()),
{
    proof {
        reveal_strlit("..");
    }
    assert(".."@ =~= parent_token());
    same_text(s, "..")
}

/// The segments of a decoded path, refused where one of them is the
/// parent-traversal token.
pub fn guarded_segments(path: &str) -> (r: Result<Vec<String>, ResolveError>)
    ensures
        path_segments(path@).contains(parent_token()) ==> r == Err::<Vec<String>, ResolveError>(
            ResolveError::TraversalRejected,
        ),
        !path_segments(path@).contains(parent_token()) ==> r is Ok && string_views(r->Ok_0@)
            == path_segments(path@),
{
    let segs = split_segments(path);
    let mut i: usize = 0;
    while i < segs.len()
        invariant
            i <= segs@.len(),
            string_views(segs@) == path_segments(path@),
            forall|k: int| 0 <= k < i ==> segs@[k]@ != parent_token(),
        decreases segs.len() - i,
    {
        if is_parent_token(segs[i].as_str()) {
            assert(path_segments(path@)[i as int] == parent_token());
            return Err(ResolveError::TraversalRejected);
        }
        i += 1;
    }
    assert(!path_segments(path@).contains(parent_token())) by {
        if path_segments(path@).contains(parent_token()) {
            let k = choose|k: int| 0 <= k < path_segments(path@).len() && path_segments(path@)[k] == parent_token();
            assert(segs@[k]@ == parent_token());
        }
    };
    Ok(segs)
}

} // verus!

//! The generic canonicalizer: pagination plus the sorted, joined values of
//! the remaining parameters.
use vstd::prelude::*;
use vstd::string::*;
use crate::decode::{percent_decode, percent_decoded};
use crate::error::ResolveError;
use crate::parse_handler::{page_file, page_file_name};
use crate::query::{lookup, QueryParams};
use crate::segment::string_views;
use crate::sort::{sort_texts, sorted_texts, texts};
use crate::text::{append_chars, chars_of, decimal_number, decimal_text, join_texts, parse_decimal, push_char, push_decimal, same_text};

verus! {

/// Whether the parameter `name` stays out of the value list: the two
/// pagination parameters and the reserved control parameters.
pub open spec fn excluded(name: Seq<char>, reserved: Seq<Seq<char>>) -> bool {
    name == "pageIndex"@ || name == "pageSize"@ || reserved.contains(name)
}

/// Raw values of the parameters that are not excluded, in order.
pub open spec fn kept_values(q: Seq<(Seq<char>, Seq<char>)>, reserved: Seq<Seq<char>>) -> Seq<Seq<char>>
    decreases q.len(),
{
    if q.len() == 0 {
        Seq::empty()
    } else {
        let p = kept_values(q.drop_last(), reserved);
        if excluded(q.last().0, reserved) {
            p
        } else {
            p.push(q.last().1)
        }
    }
}

/// Each value percent-decoded, or `None` where one of them fails.
pub open spec fn decode_all(vals: Seq<Seq<char>>) -> Option<Seq<Seq<char>>>
    decreases vals.len(),
{
    if vals.len() == 0 {
        Some(Seq::empty())
    } else {
        match (decode_all(vals.drop_last()), percent_decoded(vals.last())) {
            (Some(p), Some(d)) => Some(p.push(d)),
            _ => None,
        }
    }
}

/// A pagination parameter, percent-decoded where present.
pub open spec fn decoded_page(raw: Option<Seq<char>>) -> Result<Option<Seq<char>>, ResolveError> {
    match raw {
        None => Ok(None),
        Some(r) => match percent_decoded(r) {
            Some(d) => Ok(Some(d)),
            None => Err(ResolveError::EncodingError),
        },
    }
}

/// A decoded pagination parameter as a number, or `default` where absent.
pub open spec fn parsed_page(d: Option<Seq<char>>, default: u64) -> Result<u64, ResolveError> {
    match d {
        None => Ok(default),
        Some(t) => match decimal_number(t) {
            Some(n) => Ok(n),
            None => Err(ResolveError::InvalidPagination),
        },
    }
}

/// The subdirectory for decoded values: absent for none, else the values in
/// code-point order joined with `_`.
pub open spec fn subdir_of(vals: Seq<Seq<char>>) -> Option<Seq<char>> {
    if vals.len() == 0 {
        None
    } else {
        Some(join_texts(sorted_texts(vals), '_'))
    }
}

/// Subdirectory and filename that the generic canonicalizer gives for `q`.
pub open spec fn generic_spec(
    q: Seq<(Seq<char>, Seq<char>)>,
    reserved: Seq<Seq<char>>,
    default_index: u64,
    default_size: u64,
) -> Result<(Option<Seq<char>>, Seq<char>), ResolveError> {
    match (decoded_page(lookup(q, "pageIndex"@)), decoded_page(lookup(q, "pageSize"@))) {
        (Err(e), _) => Err(e),
        (_, Err(e)) => Err(e),
        (Ok(pi), Ok(ps)) => match (parsed_page(pi, default_index), parsed_page(ps, default_size)) {
            (Err(e), _) => Err(e),
            (_, Err(e)) => Err(e),
            (Ok(a), Ok(b)) => match decode_all(kept_values(q, reserved)) {
                None => Err(ResolveError::EncodingError),
                Some(vals) => Ok(
                    (subdir_of(vals), page_file(decimal_text(a as nat), decimal_text(b as nat))),
                ),
            },
        },
    }
}

/// Subdirectory and filename as texts.
pub open spec fn generic_view(r: Result<(Option<String>, String), ResolveError>) -> Result<
    (Option<Seq<char>>, Seq<char>),
    ResolveError,
> {
    match r {
        Ok((Some(s), f)) => Ok((Some(s@), f@)),
        Ok((None, f)) => Ok((None, f@)),
        Err(e) => Err(e),
    }
}

/// Whether `name` is one of `reserved`.
pub fn is_reserved(name: &str, reserved: &Vec<String>) -> (r: bool)
    ensures
        r == string_views(reserved@).contains(name@),
{
    let mut i: usize = 0;
    while i < reserved.len()
        invariant
            i <= reserved@.len(),
            forall|k: int| 0 <= k < i ==> reserved@[k]@ != name@,
        decreases reserved.len() - i,
    {
        if same_text(reserved[i].as_str(), name) {
            assert(string_views(reserved@)[i as int] == name@);
            return true;
        }
        i += 1;
    }
    assert(!string_views(reserved@).contains(name@)) by {
        if string_views(reserved@).contains(name@) {
            let k = choose|k: int| 0 <= k < reserved@.len() && string_views(reserved@)[k] == name@;
            assert(reserved@[k]@ == name@);
        }
    };
    false
}

/// A pagination parameter, percent-decoded where present.
fn decode_page(raw: Option<&String>) -> (r: Result<Option<String>, ResolveError>)
    ensures
        match r {
            Ok(Some(d)) => decoded_page(match raw { Some(s) => Some(s@), None => None }) == Ok::<Option<Seq<char>>, ResolveError>(Some(d@)),
            Ok(None) => decoded_page(match raw { Some(s) => Some(s@), None => None }) == Ok::<Option<Seq<char>>, ResolveError>(None),
            Err(e) => decoded_page(match raw { Some(s) => Some(s@), None => None }) == Err::<Option<Seq<char>>, ResolveError>(e),
        },
{
    match raw {
        None => Ok(None),
        Some(s) => match percent_decode(s.as_str()) {
            Some(d) => Ok(Some(d)),
            None => Err(ResolveError::EncodingError),
        },
    }
}

/// A decoded pagination parameter as a number, or `default` where absent.
fn parse_page(d: &Option<String>, default: u64) -> (r: Result<u64, ResolveError>)
    ensures
        r == parsed_page(match d { Some(s) => Some(s@), None => None }, default),
{
    match d {
        None => Ok(default),
        Some(t) => match parse_decimal(t.as_str()) {
            Some(n) => Ok(n),
            None => Err(ResolveError::InvalidPagination),
        },
    }
}

proof fn lemma_decode_fails_later(q: Seq<(Seq<char>, Seq<char>)>, reserved: Seq<Seq<char>>, i: int)
    requires
        0 <= i <= q.len(),
        decode_all(kept_values(q.subrange(0, i), reserved)) is None,
    ensures
        decode_all(kept_values(q, reserved)) is None,
    decreases q.len() - i,
{
    if i < q.len() {
        let k = kept_values(q.subrange(0, i), reserved);
        assert(q.subrange(0, i + 1).drop_last() =~= q.subrange(0, i));
        assert(k.push(q[i].1).drop_last() =~= k);
        lemma_decode_fails_later(q, reserved, i + 1);
    } else {
        assert(q.subrange(0, i) =~= q);
    }
}

/// The texts of `v` as a string.
pub fn string_of(v: &Vec<char>) -> (r: String)
    ensures
        r@ == v@,
{
    let mut s = String::new();
    append_chars(&mut s, v);
    assert(s@ =~= v@);
    s
}

/// The texts of `parts` with `sep` between each two.
pub fn join_with(parts: &Vec<Vec<char>>, sep: char) -> (r: String)
    ensures
        r@ == join_texts(texts(parts@), sep),
{
    let mut s = String::new();
    let mut i: usize = 0;
    assert(texts(parts@).subrange(0, 0) =~= Seq::<Seq<char>>::empty());
    while i < parts.len()
        invariant
            i <= parts@.len(),
            s@ == join_texts(texts(parts@).subrange(0, i as int), sep),
        decreases parts.len() - i,
    {
        let ghost pre = texts(parts@).subrange(0, i as int);
        let ghost next = texts(parts@).subrange(0, i + 1);
        assert(next.drop_last() =~= pre);
        if i > 0 {
            push_char(&mut s, sep);
        }
        append_chars(&mut s, &parts[i]);
        if i == 0 {
            assert(s@ =~= next[0]);
        }
        i += 1;
    }
    assert(texts(parts@).subrange(0, parts@.len() as int) =~= texts(parts@));
    s
}

/// Subdirectory and filename for `params` when no endpoint claims the
/// request: `pageIndex` and `pageSize` (defaults `default_index`,
/// `default_size`) name the file, and the decoded values of the other
/// parameters, but for `reserved`, sorted and joined with `_`, name the
/// subdirectory.
pub fn generic_parts(
    params: &QueryParams,
    reserved: &Vec<String>,
    default_index: u64,
    default_size: u64,
) -> (r: Result<(Option<String>, String), ResolveError>)
    ensures
        generic_view(r) == generic_spec(params@, string_views(reserved@), default_index, default_size),
{
    let ghost q = params@;
    let ghost res = string_views(reserved@);
    let pi = decode_page(params.get("pageIndex"))?;
    let ps = decode_page(params.get("pageSize"))?;
    let a = parse_page(&pi, default_index)?;
    let b = parse_page(&ps, default_size)?;
    let ghost tail = match decode_all(kept_values(q, res)) {
        None => Err(ResolveError::EncodingError),
        Some(vs) => Ok((subdir_of(vs), page_file(decimal_text(a as nat), decimal_text(b as nat)))),
    };
    assert(generic_spec(q, res, default_index, default_size) == tail);
    let mut vals: Vec<Vec<char>> = Vec::new();
    let mut i: usize = 0;
    assert(q.subrange(0, 0) =~= Seq::<(Seq<char>, Seq<char>)>::empty());
    assert(texts(vals@) =~= Seq::<Seq<char>>::empty());
    while i < params.len()
        invariant
            q == params@,
            res == string_views(reserved@),
            generic_spec(q, res, default_index, default_size) == tail,
            tail == match decode_all(kept_values(q, res)) {
                None => Err(ResolveError::EncodingError),
                Some(vs) => Ok((subdir_of(vs), page_file(decimal_text(a as nat), decimal_text(b as nat)))),
            },
            i <= q.len(),
            decode_all(kept_values(q.subrange(0, i as int), res)) == Some(texts(vals@)),
        decreases q.len() - i,
    {
        let ghost next = q.subrange(0, i + 1);
        assert(next.drop_last() =~= q.subrange(0, i as int));
        assert(next.last() == q[i as int]);
        let ghost kept_before = kept_values(q.subrange(0, i as int), res);
        assert(kept_before.push(q[i as int].1).drop_last() =~= kept_before);
        let name = params.name_at(i);
        let skip = same_text(name.as_str(), "pageIndex") || same_text(name.as_str(), "pageSize")
            || is_reserved(name.as_str(), reserved);
        if !skip {
            match percent_decode(params.value_at(i).as_str()) {
                Some(d) => {
                    let ghost before = vals@;
                    vals.push(chars_of(d.as_str()));
                    assert(texts(vals@) =~= texts(before).push(d@));
                },
                None => {
                    proof {
                        assert(!excluded(next.last().0, res));
                        assert(kept_values(next, res) == kept_before.push(q[i as int].1));
                        assert(decode_all(kept_values(next, res)) is None);
                        lemma_decode_fails_later(q, res, i + 1);
                    }
                    return Err(ResolveError::EncodingError);
                },
            }
        }
        i += 1;
    }
    assert(q.subrange(0, q.len() as int) =~= q);
    let mut index_text = String::new();
    push_decimal(&mut index_text, a);
    let mut size_text = String::new();
    push_decimal(&mut size_text, b);
    let file = page_file_name(index_text.as_str(), size_text.as_str());
    if vals.len() == 0 {
        Ok((None, file))
    } else {
        let sorted = sort_texts(vals);
        Ok((Some(join_with(&sorted, '_')), file))
    }
}

} // verus!

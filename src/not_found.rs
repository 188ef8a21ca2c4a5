//! The body of a not-found response, carrying an opaque request identifier.
use vstd::prelude::*;
use vstd::string::*;
use crate::text::push_char;
use rand::Rng;

verus! {

/// Relies on `rand::thread_rng().gen_range(0..n)`: a value in `0..n`; it
/// panics on an empty range, which `requires` rules out.
#[verifier::external_body]
fn random_below(n: usize) -> (r: usize)
    requires
        n > 0,
    ensures
        r < n,
{
    rand::thread_rng().gen_range(0..n)
}

/// The characters a request identifier is drawn from.
pub open spec fn id_alphabet() -> Seq<char> {
    "abcdefghijklmnopqrstuvwxyz0123456789"@
}

/// Length of a request identifier.
pub const REQUEST_ID_LEN: usize = 16;

/// The identifier whose characters are the alphabet entries at `draws`.
pub open spec fn id_from(draws: Seq<usize>) -> Seq<char> {
    draws.map_values(|d: usize| id_alphabet()[d as int])
}

/// The identifier whose characters are the alphabet entries at `draws`,
/// each below the alphabet's length.
pub fn request_id_from(draws: &Vec<usize>) -> (r: String)
    requires
        forall|i: int| 0 <= i < draws@.len() ==> #[trigger] draws@[i] < 36,
    ensures
        r@ == id_from(draws@),
{
    let alphabet = "abcdefghijklmnopqrstuvwxyz0123456789";
    proof {
        reveal_strlit("abcdefghijklmnopqrstuvwxyz0123456789");
    }
    let mut s = String::new();
    let mut i: usize = 0;
    while i < draws.len()
        invariant
            alphabet@ == id_alphabet(),
            alphabet@.len() == 36,
            i <= draws@.len(),
            forall|k: int| 0 <= k < draws@.len() ==> #[trigger] draws@[k] < 36,
            s@ == id_from(draws@.subrange(0, i as int)),
        decreases draws.len() - i,
    {
        push_char(&mut s, alphabet.get_char(draws[i]));
        assert(s@ =~= id_from(draws@.subrange(0, i + 1)));
        i += 1;
    }
    assert(draws@.subrange(0, draws@.len() as int) =~= draws@);
    s
}

/// A fresh random request identifier of `REQUEST_ID_LEN` lowercase letters
/// and digits.
pub fn generate_request_id() -> (r: String)
    ensures
        r@.len() == REQUEST_ID_LEN,
        forall|i: int| 0 <= i < r@.len() ==> id_alphabet().contains(#[trigger] r@[i]),
{
    let mut draws: Vec<usize> = Vec::new();
    while draws.len() < REQUEST_ID_LEN
        invariant
            draws@.len() <= REQUEST_ID_LEN,
            forall|k: int| 0 <= k < draws@.len() ==> #[trigger] draws@[k] < 36,
        decreases REQUEST_ID_LEN - draws@.len(),
    {
        draws.push(random_below(36));
    }
    let r = request_id_from(&draws);
    proof {
        reveal_strlit("abcdefghijklmnopqrstuvwxyz0123456789");
        assert forall|i: int| 0 <= i < r@.len() implies id_alphabet().contains(#[trigger] r@[i]) by {
            assert(r@[i] == id_alphabet()[draws@[i] as int]);
        };
    }
    r
}

/// The structured answer when no document exists under a resolved key; it
/// never names the key.
pub struct NotFoundBody {
    pub code: u16,
    pub message: String,
    pub request_id: String,
}

/// The message of a not-found answer.
pub open spec fn not_found_message() -> Seq<char> {
    "数据文件未找到"@
}

/// A not-found answer with code 404 and a fresh request identifier.
pub fn not_found_body() -> (r: NotFoundBody)
    ensures
        r.code == 404,
        r.message@ == not_found_message(),
        r.request_id@.len() == REQUEST_ID_LEN,
        forall|i: int| 0 <= i < r.request_id@.len() ==> id_alphabet().contains(#[trigger] r.request_id@[i]),
{
    NotFoundBody { code: 404, message: "数据文件未找到".to_owned(), request_id: generate_request_id() }
}

} // verus!

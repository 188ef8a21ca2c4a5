//! Query parameters: names mapped to raw, still percent-encoded values.
use vstd::prelude::*;
use vstd::string::*;
use crate::text::same_text;

verus! {

/// Index of the entry named `name`, the last one if several are, or -1.
pub open spec fn index_of(q: Seq<(Seq<char>, Seq<char>)>, name: Seq<char>) -> int
    decreases q.len(),
{
    if q.len() == 0 {
        -1
    } else if q.last().0 == name {
        q.len() - 1
    } else {
        index_of(q.drop_last(), name)
    }
}

/// The value given for `name`, if any.
pub open spec fn lookup(q: Seq<(Seq<char>, Seq<char>)>, name: Seq<char>) -> Option<Seq<char>> {
    if index_of(q, name) >= 0 {
        Some(q[index_of(q, name)].1)
    } else {
        None
    }
}

/// The value given for `name`, or `default`.
pub open spec fn lookup_or(q: Seq<(Seq<char>, Seq<char>)>, name: Seq<char>, default: Seq<char>) -> Seq<char> {
    match lookup(q, name) {
        Some(v) => v,
        None => default,
    }
}

/// No name occurs twice.
pub open spec fn names_distinct(q: Seq<(Seq<char>, Seq<char>)>) -> bool {
    forall|i: int, j: int| 0 <= i < j < q.len() ==> q[i].0 != q[j].0
}

/// The entries after setting `name` to `value`: a given name keeps its place
/// and takes the new value, a new name goes last.
pub open spec fn with_entry(q: Seq<(Seq<char>, Seq<char>)>, name: Seq<char>, value: Seq<char>) -> Seq<(Seq<char>, Seq<char>)> {
    if index_of(q, name) >= 0 {
        q.update(index_of(q, name), (name, value))
    } else {
        q.push((name, value))
    }
}

proof fn lemma_index_of(q: Seq<(Seq<char>, Seq<char>)>, name: Seq<char>)
    ensures
        -1 <= index_of(q, name) < q.len(),
        index_of(q, name) >= 0 ==> q[index_of(q, name)].0 == name,
        forall|k: int| index_of(q, name) < k < q.len() ==> q[k].0 != name,
    decreases q.len(),
{
    if q.len() > 0 {
        lemma_index_of(q.drop_last(), name);
        assert forall|k: int| index_of(q, name) < k < q.len() implies q[k].0 != name by {
            if k < q.len() - 1 {
                assert(q.drop_last()[k] == q[k]);
            }
        };
    }
}

/// The parameters of one request, each name at most once.
pub struct QueryParams {
    entries: Vec<(String, String)>,
}

impl View for QueryParams {
    type V = Seq<(Seq<char>, Seq<char>)>;

    closed spec fn view(&self) -> Seq<(Seq<char>, Seq<char>)> {
        Seq::new(self.entries@.len(), |i: int| (self.entries@[i].0@, self.entries@[i].1@))
    }
}

impl QueryParams {
    /// No name occurs twice.
    pub open spec fn wf(&self) -> bool {
        names_distinct(self@)
    }

    /// No parameters.
    pub fn new() -> (r: QueryParams)
        ensures
            r@ == Seq::<(Seq<char>, Seq<char>)>::empty(),
            r.wf(),
    {
        let r = QueryParams { entries: Vec::new() };
        assert(r@ =~= Seq::<(Seq<char>, Seq<char>)>::empty());
        r
    }

    /// Number of parameters.
    pub fn len(&self) -> (r: usize)
        ensures
            r == self@.len(),
    {
        self.entries.len()
    }

    /// Name of the `i`-th parameter.
    pub fn name_at(&self, i: usize) -> (r: &String)
        requires
            i < self@.len(),
        ensures
            r@ == self@[i as int].0,
    {
        &self.entries[i].0
    }

    /// Raw value of the `i`-th parameter.
    pub fn value_at(&self, i: usize) -> (r: &String)
        requires
            i < self@.len(),
        ensures
            r@ == self@[i as int].1,
    {
        &self.entries[i].1
    }

    /// Position of the parameter named `name`.
    fn position(&self, name: &str) -> (r: Option<usize>)
        ensures
            match r {
                Some(i) => index_of(self@, name@) == i,
                None => index_of(self@, name@) == -1,
            },
    {
        let mut i: usize = self.entries.len();
        assert(self@.subrange(0, i as int) =~= self@);
        while i > 0
            invariant
                i <= self@.len(),
                index_of(self@, name@) == index_of(self@.subrange(0, i as int), name@),
            decreases i,
        {
            let ghost pre = self@.subrange(0, i as int);
            if same_text(self.entries[i - 1].0.as_str(), name) {
                return Some(i - 1);
            }
            assert(pre.drop_last() =~= self@.subrange(0, i - 1));
            i -= 1;
        }
        None
    }

    /// The raw value given for `name`, if any.
    pub fn get(&self, name: &str) -> (r: Option<&String>)
        ensures
            match r {
                Some(v) => lookup(self@, name@) == Some(v@),
                None => lookup(self@, name@) is None,
            },
    {
        proof {
            lemma_index_of(self@, name@);
        }
        match self.position(name) {
            Some(i) => {
                assert(self@[i as int].1 == self.entries@[i as int].1@);
                Some(&self.entries[i].1)
            },
            None => None,
        }
    }

    /// Sets `name` to `value`; a later value for a name replaces an earlier one.
    pub fn insert(&mut self, name: &str, value: &str)
        ensures
            final(self)@ == with_entry(old(self)@, name@, value@),
            old(self).wf() ==> final(self).wf(),
    {
        proof {
            lemma_index_of(self@, name@);
        }
        let entry = (name.to_owned(), value.to_owned());
        match self.position(name) {
            Some(i) => {
                self.entries.set(i, entry);
            },
            None => {
                self.entries.push(entry);
            },
        }
        assert(self@ =~= with_entry(old(self)@, name@, value@));
    }
}

} // verus!

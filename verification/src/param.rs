//! The parameters that routing takes out of a request path.

use vstd::prelude::*;
use crate::text::str_eq;

verus! {

/// Names and values, in the order in which they were recorded.
#[derive(Debug)]
pub struct Params {
    pub segments: Vec<(String, String)>,
}

/// The name and the value of a parameter, as characters.
pub type ParamView = (Seq<char>, Seq<char>);

/// Name and value of an entry, as characters.
pub open spec fn param_view(entry: (String, String)) -> ParamView {
    (entry.0@, entry.1@)
}

impl View for Params {
    type V = Seq<ParamView>;

    open spec fn view(&self) -> Seq<ParamView> {
        Seq::new(self.segments@.len(), |i: int| param_view(self.segments@[i]))
    }
}

/// The value of the first entry of `params` that is named `key`.
pub open spec fn lookup(params: Seq<ParamView>, key: Seq<char>) -> Option<Seq<char>>
    decreases params.len(),
{
    if params.len() == 0 {
        None
    } else if params[0].0 == key {
        Some(params[0].1)
    } else {
        lookup(params.skip(1), key)
    }
}

impl Params {
    /// No parameters.
    pub fn new() -> (r: Params)
        ensures
            r@ == Seq::<ParamView>::empty(),
    {
        let r = Params { segments: Vec::new() };
        assert(r@ =~= Seq::<ParamView>::empty());
        r
    }

    /// Forgets all parameters.
    pub fn clear(&mut self)
        ensures
            final(self)@ == Seq::<ParamView>::empty(),
    {
        self.segments.clear();
        assert(self@ =~= Seq::<ParamView>::empty());
    }

    /// Whether there are no parameters.
    pub fn is_empty(&self) -> (r: bool)
        ensures
            r == (self@.len() == 0),
    {
        self.segments.len() == 0
    }

    /// The number of parameters.
    pub fn len(&self) -> (r: usize)
        ensures
            r == self@.len(),
    {
        self.segments.len()
    }

    /// Records a parameter after those that are there.
    pub fn add(&mut self, name: &str, value: &str)
        ensures
            final(self)@ == old(self)@.push((name@, value@)),
    {
        self.segments.push((name.to_owned(), value.to_owned()));
        assert(self@ =~= old(self)@.push((name@, value@)));
    }

    /// The value of the first parameter named `key`.
    pub fn get(&self, key: &str) -> (r: Option<&str>)
        ensures
            match r {
                Some(value) => lookup(self@, key@) == Some(value@),
                None => lookup(self@, key@) is None,
            },
    {
        let mut i: usize = 0;
        assert(self@.skip(0) =~= self@);
        while i < self.segments.len()
            invariant
                i <= self.segments@.len(),
                lookup(self@, key@) == lookup(self@.skip(i as int), key@),
            decreases self.segments@.len() - i,
        {
            if str_eq(self.segments[i].0.as_str(), key) {
                assert(self@.skip(i as int)[0] == param_view(self.segments@[i as int]));
                return Some(self.segments[i].1.as_str());
            }
            assert(self@.skip(i as int)[0] == param_view(self.segments@[i as int]));
            assert(self@.skip(i as int).skip(1) =~= self@.skip(i + 1));
            i += 1;
        }
        None
    }
}

} // verus!

//! Splitting query strings.
//!
//! A query string is a list of pairs separated by `&`. In a pair, the first
//! `=` separates the name from the value; a pair without `=` has an empty
//! value. Empty pairs are skipped. A name may occur more than once.

use vstd::prelude::*;
use vstd::string::*;
use crate::path::{split_on, split_range, strings_view};
use crate::tree::{values_of, BindingView, SegmentMapping};

verus! {

/// The position of the first `=` of `pair` at or after `from`, or the length
/// of `pair` if there is none.
pub open spec fn name_end(pair: Seq<char>, from: int) -> int
    decreases pair.len() - from,
{
    if from < 0 || from >= pair.len() {
        pair.len() as int
    } else if pair[from] == '=' {
        from
    } else {
        name_end(pair, from + 1)
    }
}

/// The name and the value of one pair.
pub open spec fn pair_of(pair: Seq<char>) -> BindingView {
    let end = name_end(pair, 0);
    if end < pair.len() {
        BindingView { name: pair.take(end), value: pair.skip(end + 1) }
    } else {
        BindingView { name: pair, value: Seq::empty() }
    }
}

/// The names and values of the pairs that are not empty, in order.
pub open spec fn pairs_of(pairs: Seq<Seq<char>>) -> Seq<BindingView>
    decreases pairs.len(),
{
    if pairs.len() == 0 {
        Seq::empty()
    } else if pairs.last().len() == 0 {
        pairs_of(pairs.drop_last())
    } else {
        pairs_of(pairs.drop_last()).push(pair_of(pairs.last()))
    }
}

/// The names and values that a query string holds; none where the request
/// has no query string.
pub open spec fn query_pairs(query: Option<Seq<char>>) -> Seq<BindingView> {
    match query {
        Some(text) => pairs_of(split_on(text, '&')),
        None => Seq::empty(),
    }
}

/// The names of a query string with their values, in the order of the
/// query string.
pub struct QueryStringMapping {
    pairs: SegmentMapping,
}

impl View for QueryStringMapping {
    type V = Seq<BindingView>;

    closed spec fn view(&self) -> Seq<BindingView> {
        self.pairs@
    }
}

impl QueryStringMapping {
    /// The number of pairs.
    pub fn len(&self) -> (n: usize)
        ensures
            n == self@.len(),
    {
        self.pairs.len()
    }

    /// The values given for `name`, in the order of the query string.
    pub fn get(&self, name: &str) -> (values: Vec<String>)
        ensures
            strings_view(values@) == values_of(self@, name@),
    {
        self.pairs.get(name)
    }
}

/// Reads one pair into its name and its value.
fn split_pair(pair: &str) -> (parts: (String, String))
    ensures
        (BindingView { name: parts.0@, value: parts.1@ }) == pair_of(pair@),
{
    let n = pair.unicode_len();
    let mut i: usize = 0;
    while i < n
        invariant
            i <= n == pair@.len(),
            name_end(pair@, 0) == name_end(pair@, i as int),
        decreases n - i,
    {
        if pair.get_char(i) == '=' {
            let name = String::from_str(pair.substring_char(0, i));
            let value = String::from_str(pair.substring_char(i + 1, n));
            assert(pair@.subrange(0, i as int) =~= pair@.take(i as int));
            assert(pair@.subrange(i + 1, n as int) =~= pair@.skip(i + 1));
            return (name, value);
        }
        i = i + 1;
    }
    (String::from_str(pair), String::new())
}

/// Splits a query string into its names and values.
pub fn split(query: Option<&str>) -> (mapping: QueryStringMapping)
    ensures
        mapping@ == query_pairs(
            match query {
                Some(text) => Some(text@),
                None => None,
            },
        ),
{
    let mut pairs = SegmentMapping::new();
    match query {
        Some(text) => {
            let n = text.unicode_len();
            assert(text@.subrange(0, n as int) =~= text@);
            let pieces = split_range(text, 0, n, '&');
            let ghost all = strings_view(pieces@);
            let mut i: usize = 0;
            assert(all.take(0) =~= Seq::<Seq<char>>::empty());
            while i < pieces.len()
                invariant
                    i <= pieces@.len(),
                    all == strings_view(pieces@),
                    pairs@ == pairs_of(all.take(i as int)),
                decreases pieces@.len() - i,
            {
                let piece = pieces[i].as_str();
                proof {
                    assert(all.take(i + 1).drop_last() =~= all.take(i as int));
                    assert(all.take(i + 1).last() == piece@);
                }
                if piece.unicode_len() > 0 {
                    let (name, value) = split_pair(piece);
                    pairs.bind(name, value);
                }
                i = i + 1;
            }
            assert(all.take(i as int) =~= all);
        },
        None => {},
    }
    QueryStringMapping { pairs }
}

} // verus!

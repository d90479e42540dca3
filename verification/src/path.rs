//! Splitting paths into segments.
//!
//! A path is a sequence of characters in which `/` separates segments. Route
//! definitions and request paths are tokenized slightly differently: both
//! drop one leading `/`, and a request path also drops one trailing `/`.

use vstd::prelude::*;
use vstd::string::*;

verus! {

/// The pieces of `s` between occurrences of `sep`. There is always at least
/// one piece; two adjacent separators enclose an empty piece.
pub open spec fn split_on(s: Seq<char>, sep: char) -> Seq<Seq<char>>
    decreases s.len(),
{
    if s.len() == 0 {
        seq![Seq::<char>::empty()]
    } else {
        let init = split_on(s.drop_last(), sep);
        if s.last() == sep {
            init.push(Seq::<char>::empty())
        } else {
            init.update(init.len() - 1, init.last().push(s.last()))
        }
    }
}

/// `s` without one leading `/`, if it has one.
pub open spec fn strip_leading_slash(s: Seq<char>) -> Seq<char> {
    if s.len() > 0 && s[0] == '/' {
        s.skip(1)
    } else {
        s
    }
}

/// `s` without one trailing `/`, if it has one.
pub open spec fn strip_trailing_slash(s: Seq<char>) -> Seq<char> {
    if s.len() > 0 && s.last() == '/' {
        s.drop_last()
    } else {
        s
    }
}

/// The segments of a stripped path: none for the empty path, which addresses
/// the root, and the pieces between slashes otherwise.
pub open spec fn segments_of(stripped: Seq<char>) -> Seq<Seq<char>> {
    if stripped.len() == 0 {
        Seq::<Seq<char>>::empty()
    } else {
        split_on(stripped, '/')
    }
}

/// The segments that a route definition's path names.
pub open spec fn route_segments(path: Seq<char>) -> Seq<Seq<char>> {
    segments_of(strip_leading_slash(path))
}

/// The segments that a request's path names, after the trailing slash has
/// been normalized away.
pub open spec fn request_segments(path: Seq<char>) -> Seq<Seq<char>> {
    segments_of(strip_trailing_slash(strip_leading_slash(path)))
}

/// The views of a vector of strings, element by element.
pub open spec fn strings_view(v: Seq<String>) -> Seq<Seq<char>> {
    Seq::new(v.len(), |i: int| v[i]@)
}

/// `split_on` never returns an empty list.
pub proof fn lemma_split_on_nonempty(s: Seq<char>, sep: char)
    ensures
        split_on(s, sep).len() >= 1,
    decreases s.len(),
{
    if s.len() > 0 {
        lemma_split_on_nonempty(s.drop_last(), sep);
    }
}

/// A text without the separator is its own single piece.
pub proof fn lemma_split_without_separator(s: Seq<char>, sep: char)
    requires
        forall|i: int| 0 <= i < s.len() ==> s[i] != sep,
    ensures
        split_on(s, sep) == seq![s],
    decreases s.len(),
{
    if s.len() > 0 {
        lemma_split_without_separator(s.drop_last(), sep);
        assert(s.drop_last().push(s.last()) =~= s);
        assert(seq![s.drop_last()].update(0, s) =~= seq![s]);
    } else {
        assert(s =~= Seq::<char>::empty());
    }
}

/// No piece of a split text holds the separator.
pub proof fn law_pieces_hold_no_separator(s: Seq<char>, sep: char)
    ensures
        forall|i: int, j: int|
            0 <= i < split_on(s, sep).len() && 0 <= j < split_on(s, sep)[i].len() ==> split_on(
                s,
                sep,
            )[i][j] != sep,
    decreases s.len(),
{
    if s.len() > 0 {
        law_pieces_hold_no_separator(s.drop_last(), sep);
        lemma_split_on_nonempty(s.drop_last(), sep);
    }
}

/// The pieces of two texts joined by the separator are the pieces of the
/// first followed by the pieces of the second.
pub proof fn law_split_of_joined(first: Seq<char>, second: Seq<char>, sep: char)
    ensures
        split_on(first + seq![sep] + second, sep) == split_on(first, sep) + split_on(second, sep),
    decreases second.len(),
{
    let whole = first + seq![sep] + second;
    if second.len() == 0 {
        assert(whole.drop_last() =~= first);
        assert(split_on(first, sep).push(Seq::<char>::empty()) =~= split_on(first, sep) + seq![
            Seq::<char>::empty(),
        ]);
    } else {
        let shorter = second.drop_last();
        assert(whole.drop_last() =~= first + seq![sep] + shorter);
        assert(whole.last() == second.last());
        law_split_of_joined(first, shorter, sep);
        lemma_split_on_nonempty(shorter, sep);
        let head = split_on(first, sep);
        let tail = split_on(shorter, sep);
        if second.last() == sep {
            assert((head + tail).push(Seq::<char>::empty()) =~= head + tail.push(
                Seq::<char>::empty(),
            ));
        } else {
            assert((head + tail).last() == tail.last());
            assert((head + tail).update(
                (head + tail).len() - 1,
                tail.last().push(second.last()),
            ) =~= head + tail.update(tail.len() - 1, tail.last().push(second.last())));
        }
    }
}

/// Splits the characters `from..to` of `text` at each `sep`.
pub fn split_range(text: &str, from: usize, to: usize, sep: char) -> (pieces: Vec<String>)
    requires
        from <= to <= text@.len(),
    ensures
        strings_view(pieces@) == split_on(text@.subrange(from as int, to as int), sep),
{
    let mut pieces: Vec<String> = Vec::new();
    let mut start: usize = from;
    let mut i: usize = from;
    assert(text@.subrange(from as int, from as int) =~= Seq::<char>::empty());
    assert(strings_view(pieces@).push(Seq::<char>::empty()) =~= seq![Seq::<char>::empty()]);
    while i < to
        invariant
            from <= start <= i <= to <= text@.len(),
            strings_view(pieces@).push(text@.subrange(start as int, i as int)) == split_on(
                text@.subrange(from as int, i as int),
                sep,
            ),
        decreases to - i,
    {
        let c = text.get_char(i);
        let ghost done = strings_view(pieces@);
        let ghost current = text@.subrange(start as int, i as int);
        proof {
            let before = text@.subrange(from as int, i as int);
            let after = text@.subrange(from as int, i + 1);
            assert(after.drop_last() =~= before);
            assert(after.last() == c);
        }
        if c == sep {
            let piece = String::from_str(text.substring_char(start, i));
            pieces.push(piece);
            start = i + 1;
            assert(strings_view(pieces@) =~= done.push(current));
            assert(text@.subrange(start as int, i + 1) =~= Seq::<char>::empty());
        } else {
            assert(text@.subrange(start as int, i + 1) =~= current.push(c));
            assert(done.push(current.push(c)) =~= done.push(current).update(
                done.len() as int,
                current.push(c),
            ));
        }
        i = i + 1;
    }
    let piece = String::from_str(text.substring_char(start, to));
    let ghost done = strings_view(pieces@);
    pieces.push(piece);
    assert(strings_view(pieces@) =~= done.push(piece@));
    pieces
}

/// Tokenizes the path of a route definition: one leading `/` is dropped, the
/// empty path gives no segments, and anything else is split at each `/`.
pub fn split_route_path(path: &str) -> (segments: Vec<String>)
    ensures
        strings_view(segments@) == route_segments(path@),
{
    let n = path.unicode_len();
    let from: usize = if n > 0 && path.get_char(0) == '/' {
        1
    } else {
        0
    };
    assert(path@.subrange(from as int, n as int) =~= strip_leading_slash(path@));
    if from == n {
        let segments: Vec<String> = Vec::new();
        assert(strings_view(segments@) =~= Seq::<Seq<char>>::empty());
        segments
    } else {
        split_range(path, from, n, '/')
    }
}

/// Tokenizes the path of a request: one leading and one trailing `/` are
/// dropped, the empty path gives no segments, and anything else is split at
/// each `/`.
pub fn split_request_path(path: &str) -> (segments: Vec<String>)
    ensures
        strings_view(segments@) == request_segments(path@),
{
    let n = path.unicode_len();
    let from: usize = if n > 0 && path.get_char(0) == '/' {
        1
    } else {
        0
    };
    let ghost stripped = strip_leading_slash(path@);
    assert(path@.subrange(from as int, n as int) =~= stripped);
    let to: usize = if n > from && path.get_char(n - 1) == '/' {
        n - 1
    } else {
        n
    };
    assert(path@.subrange(from as int, to as int) =~= strip_trailing_slash(stripped));
    if from == to {
        let segments: Vec<String> = Vec::new();
        assert(strings_view(segments@) =~= Seq::<Seq<char>>::empty());
        segments
    } else {
        split_range(path, from, to, '/')
    }
}

} // verus!

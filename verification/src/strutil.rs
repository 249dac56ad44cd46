//! Character-sequence utilities shared by the template compiler and the
//! query parser: splitting on a separator, joining, and exact string
//! comparison, each verified against a recursive specification.

use vstd::prelude::*;
use vstd::string::StrSliceExecFns;
use vstd::utf8::{decode_utf8, valid_utf8};

verus! {

/// The pieces of `s` between occurrences of `sep`: always one more piece
/// than there are separators, so the empty sequence splits into one empty
/// piece.
pub open spec fn split_on(s: Seq<char>, sep: char) -> Seq<Seq<char>>
    decreases s.len(),
{
    if s.len() == 0 {
        seq![Seq::<char>::empty()]
    } else if s.last() == sep {
        split_on(s.drop_last(), sep).push(Seq::<char>::empty())
    } else {
        let r = split_on(s.drop_last(), sep);
        r.drop_last().push(r.last().push(s.last()))
    }
}

/// The pieces interleaved with the separator, the inverse of `split_on`.
pub open spec fn join_with(parts: Seq<Seq<char>>, sep: char) -> Seq<char>
    decreases parts.len(),
{
    if parts.len() == 0 {
        Seq::<char>::empty()
    } else if parts.len() == 1 {
        parts[0]
    } else {
        join_with(parts.drop_last(), sep) + seq![sep] + parts.last()
    }
}

pub broadcast proof fn lemma_split_on_len(s: Seq<char>, sep: char)
    ensures
        #[trigger] split_on(s, sep).len() >= 1,
    decreases s.len(),
{
    if s.len() > 0 {
        lemma_split_on_len(s.drop_last(), sep);
    }
}

/// Joining the pieces of a split restores the original sequence.
pub proof fn lemma_join_split(s: Seq<char>, sep: char)
    ensures
        join_with(split_on(s, sep), sep) == s,
    decreases s.len(),
{
    broadcast use lemma_split_on_len;

    if s.len() == 0 {
        assert(join_with(split_on(s, sep), sep) =~= s);
    } else {
        lemma_join_split(s.drop_last(), sep);
        let r = split_on(s.drop_last(), sep);
        if s.last() == sep {
            assert(split_on(s, sep) == r.push(Seq::<char>::empty()));
            assert(r.push(Seq::<char>::empty()).drop_last() =~= r);
            assert(join_with(split_on(s, sep), sep) =~= s);
        } else {
            let part = r.last().push(s.last());
            let w = r.drop_last().push(part);
            assert(split_on(s, sep) == w);
            assert(s.drop_last().push(s.last()) =~= s);
            if r.len() == 1 {
                assert(w.len() == 1);
                assert(w[0] == part);
                assert(join_with(r, sep) == r[0]);
                assert(r[0] == r.last());
                assert(part =~= join_with(r, sep).push(s.last()));
                assert(join_with(w, sep) =~= s);
            } else {
                assert(w.drop_last() =~= r.drop_last());
                assert(join_with(w, sep) == join_with(r.drop_last(), sep) + seq![sep] + part);
                assert(join_with(r, sep) == join_with(r.drop_last(), sep) + seq![sep] + r.last());
                assert(join_with(w, sep) =~= join_with(r, sep).push(s.last()));
                assert(join_with(w, sep) =~= s);
            }
        }
    }
}


/// A join of at least two pieces starts with the first piece and a
/// separator.
pub proof fn lemma_join_front(parts: Seq<Seq<char>>, sep: char)
    requires
        parts.len() >= 2,
    ensures
        join_with(parts, sep) == parts[0] + seq![sep] + join_with(parts.drop_first(), sep),
    decreases parts.len(),
{
    if parts.len() == 2 {
        assert(parts.drop_last()[0] == parts[0]);
        assert(join_with(parts.drop_last(), sep) == parts[0]);
        assert(parts.drop_first().len() == 1);
        assert(parts.drop_first()[0] == parts[1]);
        assert(join_with(parts.drop_first(), sep) == parts[1]);
        assert(parts.last() == parts[1]);
    } else {
        let dl = parts.drop_last();
        lemma_join_front(dl, sep);
        assert(dl[0] == parts[0]);
        assert(dl.drop_first() =~= parts.drop_first().drop_last());
        assert(parts.drop_first().last() == parts.last());
        assert(parts.drop_first().len() >= 2);
        assert(join_with(parts.drop_first(), sep) == join_with(parts.drop_first().drop_last(), sep)
            + seq![sep] + parts.last());
        assert(join_with(parts, sep) == join_with(dl, sep) + seq![sep] + parts.last());
        assert(join_with(parts, sep) =~= parts[0] + seq![sep] + join_with(
            parts.drop_first(),
            sep,
        ));
    }
}

/// Joining a concatenation of two non-empty piece lists inserts one
/// separator between their joins.
pub proof fn lemma_join_concat(a: Seq<Seq<char>>, b: Seq<Seq<char>>, sep: char)
    requires
        a.len() >= 1,
        b.len() >= 1,
    ensures
        join_with(a + b, sep) == join_with(a, sep) + seq![sep] + join_with(b, sep),
    decreases b.len(),
{
    if b.len() == 1 {
        assert((a + b).drop_last() =~= a);
        assert((a + b).last() == b[0]);
        assert((a + b).len() >= 2);
        assert(join_with(b, sep) == b[0]);
    } else {
        lemma_join_concat(a, b.drop_last(), sep);
        assert((a + b).drop_last() =~= a + b.drop_last());
        assert((a + b).last() == b.last());
        assert((a + b).len() >= 2);
        assert(join_with(a + b, sep) == join_with(a + b.drop_last(), sep) + seq![sep]
            + b.last());
        assert(join_with(b, sep) == join_with(b.drop_last(), sep) + seq![sep] + b.last());
        assert(join_with(a + b, sep) =~= join_with(a, sep) + seq![sep] + join_with(b, sep));
    }
}

/// Splits `s` at every occurrence of `sep`, as `split_on` describes.
pub fn split_str(s: &str, sep: char) -> (r: Vec<String>)
    ensures
        r.deep_view() == split_on(s@, sep),
        r@.len() >= 1,
{
    let n = s.unicode_len();
    let mut r: Vec<String> = Vec::new();
    let mut start: usize = 0;
    let mut i: usize = 0;
    proof {
        assert(s@.take(0) =~= Seq::<char>::empty());
        assert(s@.subrange(0, 0) =~= Seq::<char>::empty());
    }
    while i < n
        invariant
            i <= n,
            start <= i,
            n == s@.len(),
            split_on(s@.take(i as int), sep) == r.deep_view().push(
                s@.subrange(start as int, i as int),
            ),
        decreases n - i,
    {
        let ghost pre = s@.take(i as int);
        let c = s.get_char(i);
        proof {
            assert(s@.take(i + 1) =~= pre.push(c));
            assert(pre.push(c).drop_last() =~= pre);
            assert(pre.push(c).last() == c);
        }
        if c == sep {
            let piece = s.substring_char(start, i).to_owned();
            assert(piece@ == s@.subrange(start as int, i as int));
            let ghost old_r = r.deep_view();
            r.push(piece);
            proof {
                assert(r.deep_view() =~= old_r.push(s@.subrange(start as int, i as int)));
                assert(r.deep_view() == split_on(pre, sep));
                assert(s@.subrange(i + 1, i + 1) =~= Seq::<char>::empty());
                assert(split_on(s@.take(i + 1), sep) =~= r.deep_view().push(
                    s@.subrange(i + 1, i + 1),
                ));
            }
            start = i + 1;
        } else {
            proof {
                let sp = split_on(pre, sep);
                assert(sp.drop_last() =~= r.deep_view());
                assert(sp.last() == s@.subrange(start as int, i as int));
                assert(s@.subrange(start as int, i as int).push(c) =~= s@.subrange(
                    start as int,
                    i + 1,
                ));
                assert(split_on(s@.take(i + 1), sep) =~= r.deep_view().push(
                    s@.subrange(start as int, i + 1),
                ));
            }
        }
        i = i + 1;
    }
    let piece = s.substring_char(start, n).to_owned();
    let ghost old_r = r.deep_view();
    r.push(piece);
    proof {
        assert(s@.take(n as int) =~= s@);
        assert(r.deep_view() =~= old_r.push(s@.subrange(start as int, n as int)));
    }
    r
}

/// Exact comparison of two string slices, by characters.
pub fn str_eq(a: &str, b: &str) -> (r: bool)
    ensures
        r == (a@ == b@),
{
    let na = a.unicode_len();
    let nb = b.unicode_len();
    if na != nb {
        return false;
    }
    let mut i: usize = 0;
    while i < na
        invariant
            i <= na,
            na == a@.len(),
            na == b@.len(),
            forall|j: int| 0 <= j < i ==> a@[j] == b@[j],
        decreases na - i,
    {
        if a.get_char(i) != b.get_char(i) {
            return false;
        }
        i = i + 1;
    }
    proof {
        assert(a@ =~= b@);
    }
    true
}

/// Relies on `String::from_utf8`: it succeeds exactly on valid UTF-8 input
/// and returns the string whose characters decode those bytes, as vstd's
/// `valid_utf8` and `decode_utf8` describe.
#[verifier::external_body]
pub(crate) fn string_from_utf8(bytes: Vec<u8>) -> (r: Option<String>)
    ensures
        r is Some <==> valid_utf8(bytes@),
        r matches Some(s) ==> s@ == decode_utf8(bytes@),
{
    String::from_utf8(bytes).ok()
}

} // verus!

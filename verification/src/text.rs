//! Byte strings: searching, comparing, and splitting into lines and fields.

use vstd::prelude::*;
use vstd::slice::slice_subrange;

verus! {

/// Line feed, which ends a line.
pub const LF: u8 = 0x0a;

/// Carriage return, dropped where it stands directly before a line feed.
pub const CR: u8 = 0x0d;

/// Index of the first element of `s` that satisfies `p`, or `s.len()` when
/// there is none.
pub open spec fn first_index<A>(s: Seq<A>, p: spec_fn(A) -> bool) -> int
    decreases s.len(),
{
    if s.len() == 0 || p(s[0]) {
        0
    } else {
        1 + first_index(s.skip(1), p)
    }
}

/// `first_index` lies within bounds, nothing before it satisfies `p`, and the
/// element at it does where there is one.
pub proof fn lemma_first_index<A>(s: Seq<A>, p: spec_fn(A) -> bool)
    ensures
        0 <= first_index(s, p) <= s.len(),
        forall|i: int| 0 <= i < first_index(s, p) ==> !p(#[trigger] s[i]),
        first_index(s, p) < s.len() ==> p(s[first_index(s, p)]),
    decreases s.len(),
{
    if s.len() == 0 || p(s[0]) {
    } else {
        let rest = s.skip(1);
        lemma_first_index(rest, p);
        assert forall|i: int| 0 <= i < first_index(s, p) implies !p(#[trigger] s[i]) by {
            if i > 0 {
                assert(s[i] == rest[i - 1]);
            }
        }
        assert(s[first_index(s, p)] == rest[first_index(rest, p)]
            || first_index(s, p) == s.len());
    }
}

/// An index with the three properties of `lemma_first_index` is `first_index`.
pub proof fn lemma_first_index_is<A>(s: Seq<A>, p: spec_fn(A) -> bool, k: int)
    requires
        0 <= k <= s.len(),
        forall|i: int| 0 <= i < k ==> !p(#[trigger] s[i]),
        k < s.len() ==> p(s[k]),
    ensures
        first_index(s, p) == k,
    decreases s.len(),
{
    if s.len() == 0 || p(s[0]) {
        if k > 0 {
            assert(!p(s[0]));
        }
    } else {
        let rest = s.skip(1);
        assert forall|i: int| 0 <= i < k - 1 implies !p(#[trigger] rest[i]) by {
            assert(rest[i] == s[i + 1]);
        }
        if k < s.len() {
            assert(rest[k - 1] == s[k]);
        }
        lemma_first_index_is(rest, p, k - 1);
    }
}

/// The predicate "is the byte `b`".
pub open spec fn is_byte(b: u8) -> spec_fn(u8) -> bool {
    |x: u8| x == b
}

/// Index of the first `b` in `s`, or `s.len()` when `b` does not occur.
pub open spec fn position(s: Seq<u8>, b: u8) -> int {
    first_index(s, is_byte(b))
}

/// Finds the first `b` in `s`.
pub fn find(s: &[u8], b: u8) -> (k: usize)
    ensures
        k == position(s@, b),
        k <= s@.len(),
{
    let mut k: usize = 0;
    while k < s.len() && s[k] != b
        invariant
            k <= s@.len(),
            forall|i: int| 0 <= i < k ==> !is_byte(b)(#[trigger] s@[i]),
        decreases s@.len() - k,
    {
        k += 1;
    }
    proof {
        lemma_first_index_is(s@, is_byte(b), k as int);
    }
    k
}

/// Whether two byte strings hold the same bytes.
pub fn bytes_equal(a: &[u8], b: &[u8]) -> (same: bool)
    ensures
        same == (a@ == b@),
{
    if a.len() != b.len() {
        return false;
    }
    let mut k: usize = 0;
    while k < a.len()
        invariant
            k <= a@.len(),
            a@.len() == b@.len(),
            forall|i: int| 0 <= i < k ==> a@[i] == b@[i],
        decreases a@.len() - k,
    {
        if a[k] != b[k] {
            return false;
        }
        k += 1;
    }
    assert(a@ =~= b@);
    true
}

/// `s` with every `from` turned into `to`.
pub open spec fn replaced(s: Seq<u8>, from: u8, to: u8) -> Seq<u8> {
    Seq::new(s.len(), |i: int| if s[i] == from { to } else { s[i] })
}

/// Copies `s`, turning every `from` into `to`.
pub fn replace(s: &[u8], from: u8, to: u8) -> (out: Vec<u8>)
    ensures
        out@ == replaced(s@, from, to),
{
    let mut out: Vec<u8> = Vec::new();
    let mut k: usize = 0;
    while k < s.len()
        invariant
            k <= s@.len(),
            out@ == replaced(s@.take(k as int), from, to),
        decreases s@.len() - k,
    {
        let b = s[k];
        out.push(if b == from { to } else { b });
        k += 1;
        assert(out@ =~= replaced(s@.take(k as int), from, to));
    }
    assert(s@.take(k as int) =~= s@);
    out
}

/// Appends `piece` to `out`.
pub fn append(out: &mut Vec<u8>, piece: &[u8])
    ensures
        final(out)@ == old(out)@ + piece@,
{
    out.extend_from_slice(piece);
    assert(out@ =~= old(out)@ + piece@);
}

/// The byte strings that a vector of slices holds.
pub open spec fn views(v: Seq<&[u8]>) -> Seq<Seq<u8>> {
    Seq::new(v.len(), |i: int| v[i]@)
}

/// `line` without a carriage return at its end.
pub open spec fn without_cr(line: Seq<u8>) -> Seq<u8> {
    if line.len() > 0 && line.last() == CR {
        line.drop_last()
    } else {
        line
    }
}

/// The lines of `text`. A line ends at a line feed, which is not part of it;
/// a carriage return directly before that line feed is dropped too. What
/// follows the last line feed is a line of its own unless it is empty.
pub open spec fn lines(text: Seq<u8>) -> Seq<Seq<u8>>
    decreases text.len(),
{
    let p = position(text, LF);
    if text.len() == 0 {
        Seq::empty()
    } else if 0 <= p < text.len() {
        seq![without_cr(text.take(p))] + lines(text.skip(p + 1))
    } else {
        seq![text]
    }
}

/// Splits `text` into its lines.
pub fn split_lines(text: &[u8]) -> (out: Vec<&[u8]>)
    ensures
        views(out@) == lines(text@),
{
    let mut out: Vec<&[u8]> = Vec::new();
    let mut start: usize = 0;
    assert(text@.skip(0) =~= text@);
    assert(views(out@) + lines(text@) =~= lines(text@));
    while start < text.len()
        invariant
            start <= text@.len(),
            lines(text@) == views(out@) + lines(text@.skip(start as int)),
        decreases text@.len() - start,
    {
        let ghost before = views(out@);
        let rest = slice_subrange(text, start, text.len());
        assert(rest@ =~= text@.skip(start as int));
        let p = find(rest, LF);
        if p < rest.len() {
            let end: usize = if p > 0 && rest[p - 1] == CR {
                p - 1
            } else {
                p
            };
            let line = slice_subrange(rest, 0, end);
            assert(line@ =~= without_cr(rest@.take(p as int)));
            out.push(line);
            assert(rest@.skip(p + 1) =~= text@.skip(start + p + 1));
            assert(views(out@) =~= before + seq![line@]);
            start = start + p + 1;
        } else {
            out.push(rest);
            assert(views(out@) =~= before + seq![rest@]);
            start = text.len();
            assert(lines(text@.skip(start as int)) =~= Seq::<Seq<u8>>::empty());
        }
    }
    assert(views(out@) + lines(text@.skip(start as int)) =~= views(out@));
    out
}

/// `s` cut at occurrences of `sep` into at most `limit` pieces: each of the
/// first `limit - 1` occurrences ends a piece, and the last piece is all that
/// remains, separators included.
pub open spec fn pieces(s: Seq<u8>, sep: u8, limit: nat) -> Seq<Seq<u8>>
    decreases limit,
{
    let p = position(s, sep);
    if limit == 0 {
        Seq::empty()
    } else if limit >= 2 && 0 <= p < s.len() {
        seq![s.take(p)] + pieces(s.skip(p + 1), sep, (limit - 1) as nat)
    } else {
        seq![s]
    }
}

/// The pieces with `sep` between each two neighbours.
pub open spec fn joined(parts: Seq<Seq<u8>>, sep: u8) -> Seq<u8>
    decreases parts.len(),
{
    if parts.len() == 0 {
        Seq::empty()
    } else if parts.len() == 1 {
        parts[0]
    } else {
        parts[0] + seq![sep] + joined(parts.skip(1), sep)
    }
}

/// Cutting yields at least one piece and at most `limit`.
pub proof fn lemma_pieces_len(s: Seq<u8>, sep: u8, limit: nat)
    requires
        limit >= 1,
    ensures
        1 <= pieces(s, sep, limit).len() <= limit,
    decreases limit,
{
    let p = position(s, sep);
    if limit >= 2 && 0 <= p < s.len() {
        lemma_pieces_len(s.skip(p + 1), sep, (limit - 1) as nat);
    }
}

/// Joining the pieces of a byte string gives the byte string back.
pub proof fn lemma_joined_pieces(s: Seq<u8>, sep: u8, limit: nat)
    requires
        limit >= 1,
    ensures
        joined(pieces(s, sep, limit), sep) == s,
    decreases limit,
{
    let p = position(s, sep);
    if limit >= 2 && 0 <= p < s.len() {
        let rest = s.skip(p + 1);
        let tail = pieces(rest, sep, (limit - 1) as nat);
        let all = pieces(s, sep, limit);
        lemma_pieces_len(rest, sep, (limit - 1) as nat);
        lemma_joined_pieces(rest, sep, (limit - 1) as nat);
        lemma_first_index(s, is_byte(sep));
        assert(all.skip(1) =~= tail);
        assert(s.take(p) + seq![sep] + rest =~= s);
    }
}

/// Cuts `s` at occurrences of `sep` into at most `limit` pieces.
pub fn split(s: &[u8], sep: u8, limit: usize) -> (out: Vec<&[u8]>)
    ensures
        views(out@) == pieces(s@, sep, limit as nat),
{
    let mut out: Vec<&[u8]> = Vec::new();
    if limit == 0 {
        assert(views(out@) =~= pieces(s@, sep, 0));
        return out;
    }
    let mut rest: &[u8] = s;
    assert(views(out@) + pieces(rest@, sep, limit as nat) =~= pieces(s@, sep, limit as nat));
    loop
        invariant
            out@.len() < limit,
            pieces(s@, sep, limit as nat) == views(out@) + pieces(
                rest@,
                sep,
                (limit - out@.len()) as nat,
            ),
        ensures
            pieces(s@, sep, limit as nat) == views(out@) + seq![rest@],
        decreases limit - out@.len(),
    {
        if out.len() + 1 == limit {
            break ;
        }
        let p = find(rest, sep);
        if p >= rest.len() {
            break ;
        }
        let ghost before = views(out@);
        let piece = slice_subrange(rest, 0, p);
        let next = slice_subrange(rest, p + 1, rest.len());
        assert(piece@ =~= rest@.take(p as int));
        assert(next@ =~= rest@.skip(p + 1));
        out.push(piece);
        assert(views(out@) =~= before + seq![piece@]);
        assert(before + (seq![piece@] + pieces(next@, sep, (limit - out@.len()) as nat))
            =~= views(out@) + pieces(next@, sep, (limit - out@.len()) as nat));
        rest = next;
    }
    let ghost before = views(out@);
    out.push(rest);
    assert(views(out@) =~= before + seq![rest@]);
    out
}

} // verus!

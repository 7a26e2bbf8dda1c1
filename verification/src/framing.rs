//! The frame of a token: three segments with a `.` between them.

use crate::error::FramingError;
use vstd::prelude::*;
use vstd::slice::slice_subrange;

verus! {

/// The separator between segments, an ASCII `.`.
pub const DOT: u8 = 0x2e;

/// The segments of a token, each a part of the token's own text.
#[derive(Debug, Clone, Copy, PartialEq, Eq)]
pub struct Segments<'a> {
    /// The text before the first separator.
    pub header: &'a [u8],
    /// The text between the two separators.
    pub payload: &'a [u8],
    /// The text after the second separator.
    pub signature: &'a [u8],
}

/// How many separators `text` holds.
pub open spec fn dot_count(text: Seq<u8>) -> nat
    decreases text.len(),
{
    if text.len() == 0 {
        0
    } else {
        dot_count(text.drop_last()) + if text.last() == DOT {
            1nat
        } else {
            0nat
        }
    }
}

/// Whether `text` holds no separator.
pub open spec fn dot_free(text: Seq<u8>) -> bool {
    forall|i: int| 0 <= i < text.len() ==> #[trigger] text[i] != DOT
}

/// Where the first separator of `text` stands; the length of `text` if it
/// holds none.
pub open spec fn first_dot(text: Seq<u8>) -> int
    decreases text.len(),
{
    if text.len() == 0 || text[0] == DOT {
        0
    } else {
        1 + first_dot(text.drop_first())
    }
}

/// Three segments with a separator after the first and after the second.
pub open spec fn join_spec(header: Seq<u8>, payload: Seq<u8>, signature: Seq<u8>) -> Seq<u8> {
    header + seq![DOT] + payload + seq![DOT] + signature
}

/// The segments of `token`, where it holds exactly two separators.
pub open spec fn split_spec(token: Seq<u8>) -> Option<(Seq<u8>, Seq<u8>, Seq<u8>)> {
    if dot_count(token) == 2 {
        let first = first_dot(token);
        let rest = token.skip(first + 1);
        let second = first_dot(rest);
        Some((token.take(first), rest.take(second), rest.skip(second + 1)))
    } else {
        None
    }
}

/// A separator alone counts as one.
pub proof fn lemma_lone_dot()
    ensures
        dot_count(seq![DOT]) == 1,
{
    let dot = seq![DOT];
    assert(dot.drop_last() =~= Seq::<u8>::empty());
    assert(dot_count(dot.drop_last()) == 0);
}

/// The separators of a concatenation are those of its two parts.
pub proof fn lemma_dot_count_concat(a: Seq<u8>, b: Seq<u8>)
    ensures
        dot_count(a + b) == dot_count(a) + dot_count(b),
    decreases b.len(),
{
    if b.len() == 0 {
        assert(a + b =~= a);
    } else {
        assert((a + b).drop_last() =~= a + b.drop_last());
        lemma_dot_count_concat(a, b.drop_last());
    }
}

/// A text has no separator exactly when it counts none.
pub proof fn lemma_dot_free_count(text: Seq<u8>)
    ensures
        dot_free(text) <==> dot_count(text) == 0,
    decreases text.len(),
{
    if text.len() > 0 {
        let init = text.drop_last();
        lemma_dot_free_count(init);
        if dot_free(text) {
            assert forall|i: int| 0 <= i < init.len() implies #[trigger] init[i] != DOT by {
                assert(text[i] != DOT);
            }
            assert(text[text.len() - 1] != DOT);
        }
        if dot_count(text) == 0 {
            assert forall|i: int| 0 <= i < text.len() implies #[trigger] text[i] != DOT by {
                if i < init.len() {
                    assert(init[i] != DOT);
                }
            }
        }
    }
}

/// The first separator stands where a separator follows a text without one.
pub proof fn lemma_first_dot_at(text: Seq<u8>, at: int)
    requires
        0 <= at <= text.len(),
        dot_free(text.take(at)),
        at < text.len() ==> text[at] == DOT,
    ensures
        first_dot(text) == at,
    decreases at,
{
    if at > 0 {
        assert(text.take(at)[0] != DOT);
        let rest = text.drop_first();
        assert forall|i: int| 0 <= i < at - 1 implies #[trigger] rest.take(at - 1)[i] != DOT by {
            assert(text.take(at)[i + 1] != DOT);
        }
        lemma_first_dot_at(rest, at - 1);
    }
}

/// Cutting what was joined gives the three segments back, provided none of
/// them holds a separator.
pub proof fn lemma_split_join(header: Seq<u8>, payload: Seq<u8>, signature: Seq<u8>)
    requires
        dot_free(header),
        dot_free(payload),
        dot_free(signature),
    ensures
        split_spec(join_spec(header, payload, signature)) == Some((header, payload, signature)),
{
    let token = join_spec(header, payload, signature);
    let dot = seq![DOT];
    lemma_dot_free_count(header);
    lemma_dot_free_count(payload);
    lemma_dot_free_count(signature);
    lemma_lone_dot();
    lemma_dot_count_concat(header, dot);
    lemma_dot_count_concat(header + dot, payload);
    lemma_dot_count_concat(header + dot + payload, dot);
    lemma_dot_count_concat(header + dot + payload + dot, signature);
    assert(dot_count(token) == 2);

    let first = header.len() as int;
    assert(token.take(first) =~= header);
    assert(token[first] == DOT);
    lemma_first_dot_at(token, first);
    let rest = token.skip(first + 1);
    assert(rest =~= payload + dot + signature);
    let second = payload.len() as int;
    assert(rest.take(second) =~= payload);
    assert(rest[second] == DOT);
    lemma_first_dot_at(rest, second);
    assert(rest.skip(second + 1) =~= signature);
}

/// The text before the first separator holds none.
pub proof fn lemma_first_dot_bounds(text: Seq<u8>)
    ensures
        0 <= first_dot(text) <= text.len(),
        dot_free(text.take(first_dot(text))),
        first_dot(text) < text.len() ==> text[first_dot(text)] == DOT,
        first_dot(text) == text.len() ==> dot_free(text),
    decreases text.len(),
{
    if text.len() == 0 || text[0] == DOT {
    } else {
        let rest = text.drop_first();
        lemma_first_dot_bounds(rest);
        let at = first_dot(text);
        assert forall|i: int| 0 <= i < at implies #[trigger] text.take(at)[i] != DOT by {
            if i > 0 {
                assert(rest.take(at - 1)[i - 1] != DOT);
            }
        }
        if at == text.len() {
            assert(text.take(at) =~= text);
        }
    }
}

/// What was cut joins back into the token, and no segment holds a separator.
pub proof fn lemma_join_split(token: Seq<u8>)
    requires
        split_spec(token) is Some,
    ensures
        ({
            let (header, payload, signature) = split_spec(token)->Some_0;
            &&& join_spec(header, payload, signature) == token
            &&& dot_free(header)
            &&& dot_free(payload)
            &&& dot_free(signature)
        }),
{
    let (header, payload, signature) = split_spec(token)->Some_0;
    let dot = seq![DOT];
    let first = first_dot(token);
    lemma_first_dot_bounds(token);
    lemma_dot_free_count(token);
    lemma_dot_free_count(header);
    assert(first < token.len());
    let rest = token.skip(first + 1);
    assert(token =~= header + dot + rest);
    lemma_lone_dot();
    lemma_dot_count_concat(header, dot);
    lemma_dot_count_concat(header + dot, rest);
    assert(dot_count(rest) == 1);

    let second = first_dot(rest);
    lemma_first_dot_bounds(rest);
    lemma_dot_free_count(rest);
    lemma_dot_free_count(payload);
    assert(second < rest.len());
    assert(rest =~= payload + dot + signature);
    lemma_dot_count_concat(payload, dot);
    lemma_dot_count_concat(payload + dot, signature);
    lemma_dot_free_count(signature);
    assert(join_spec(header, payload, signature) =~= token);
}

/// A token can be cut exactly when it holds two separators, and then in one
/// way only: into the segments before, between and after them, any of which
/// may be empty.
pub proof fn lemma_split_iff(token: Seq<u8>)
    ensures
        split_spec(token) is Some <==> dot_count(token) == 2,
        split_spec(token) is Some <==> exists|h: Seq<u8>, p: Seq<u8>, s: Seq<u8>|
            #[trigger] join_spec(h, p, s) == token && dot_free(h) && dot_free(p) && dot_free(s),
        forall|h: Seq<u8>, p: Seq<u8>, s: Seq<u8>|
            #[trigger] join_spec(h, p, s) == token && dot_free(h) && dot_free(p) && dot_free(s)
                ==> split_spec(token) == Some((h, p, s)),
{
    assert forall|h: Seq<u8>, p: Seq<u8>, s: Seq<u8>|
        #[trigger] join_spec(h, p, s) == token && dot_free(h) && dot_free(p) && dot_free(
            s,
        ) implies split_spec(token) == Some((h, p, s)) by {
        lemma_split_join(h, p, s);
    }
    if split_spec(token) is Some {
        lemma_join_split(token);
        let (h, p, s) = split_spec(token)->Some_0;
        assert(join_spec(h, p, s) == token && dot_free(h) && dot_free(p) && dot_free(s));
    }
}

/// Cuts `token` at its separators.
///
/// Fails unless there are exactly two of them. A segment may be empty.
pub fn split<'a>(token: &'a [u8]) -> (r: Result<Segments<'a>, FramingError>)
    ensures
        match r {
            Ok(segments) => split_spec(token@) == Some(
                (segments.header@, segments.payload@, segments.signature@),
            ),
            Err(e) => e == FramingError::SegmentCount && split_spec(token@) is None,
        },
        r is Ok <==> dot_count(token@) == 2,
{
    let n = token.len();
    let mut count: usize = 0;
    let mut first: usize = 0;
    let mut second: usize = 0;
    let mut i: usize = 0;
    while i < n
        invariant
            n == token@.len(),
            i <= n,
            count <= i,
            count == dot_count(token@.take(i as int)),
            count == 0 ==> dot_free(token@.take(i as int)),
            count >= 1 ==> first < i && token@[first as int] == DOT && dot_free(
                token@.take(first as int),
            ),
            count >= 2 ==> first < second < i && token@[second as int] == DOT && dot_free(
                token@.subrange(first + 1, second as int),
            ),
            count == 2 ==> dot_free(token@.subrange(second + 1, i as int)),
        decreases n - i,
    {
        let ghost seen = token@.take(i as int);
        let ghost next = token@.take(i + 1);
        assert(next.drop_last() =~= seen);
        assert(next.last() == token@[i as int]);
        if token[i] == DOT {
            if count == 0 {
                first = i;
            } else if count == 1 {
                second = i;
                assert forall|k: int| 0 <= k < second - (first + 1) implies #[trigger] token@.subrange(
                    first + 1,
                    second as int,
                )[k] != DOT by {
                    lemma_dot_free_count(seen);
                    lemma_single_dot(seen, first as int, first + 1 + k);
                }
            }
            count = count + 1;
        } else {
            if count == 0 {
                assert forall|k: int| 0 <= k < next.len() implies #[trigger] next[k] != DOT by {
                    if k < i {
                        assert(seen[k] != DOT);
                    }
                }
            }
            if count == 2 {
                assert forall|k: int| 0 <= k < i + 1 - (second + 1) implies #[trigger] token@.subrange(
                    second + 1,
                    i + 1,
                )[k] != DOT by {
                    if k < i - (second + 1) {
                        assert(token@.subrange(second + 1, i as int)[k] != DOT);
                    }
                }
            }
        }
        i = i + 1;
    }
    assert(token@.take(n as int) =~= token@);
    if count != 2 {
        return Err(FramingError::SegmentCount);
    }
    let header = slice_subrange(token, 0, first);
    let payload = slice_subrange(token, first + 1, second);
    let signature = slice_subrange(token, second + 1, n);
    proof {
        assert(token@.take(first as int) =~= header@);
        lemma_first_dot_at(token@, first as int);
        let rest = token@.skip(first + 1);
        assert(rest.take(second - first - 1) =~= payload@);
        assert(rest[second - first - 1] == DOT);
        lemma_first_dot_at(rest, second - first - 1);
        assert(rest.skip(second - first) =~= signature@);
    }
    Ok(Segments { header, payload, signature })
}

/// In a text with one separator, every other position holds none.
proof fn lemma_single_dot(text: Seq<u8>, at: int, other: int)
    requires
        dot_count(text) == 1,
        0 <= at < text.len(),
        text[at] == DOT,
        0 <= other < text.len(),
        other != at,
    ensures
        text[other] != DOT,
{
    let dot = seq![DOT];
    let before = text.take(at);
    let after = text.skip(at + 1);
    assert(text =~= before + dot + after);
    lemma_lone_dot();
    lemma_dot_count_concat(before, dot);
    lemma_dot_count_concat(before + dot, after);
    lemma_dot_free_count(before);
    lemma_dot_free_count(after);
    if other < at {
        assert(before[other] != DOT);
    } else {
        assert(after[other - at - 1] != DOT);
    }
}

/// Joins three segments with a separator after the first and after the
/// second. The segments are taken as they are.
pub fn join(header: &[u8], payload: &[u8], signature: &[u8]) -> (token: Vec<u8>)
    ensures
        token@ == join_spec(header@, payload@, signature@),
{
    let mut token: Vec<u8> = Vec::new();
    token.extend_from_slice(header);
    token.push(DOT);
    token.extend_from_slice(payload);
    token.push(DOT);
    token.extend_from_slice(signature);
    assert(token@ =~= join_spec(header@, payload@, signature@));
    token
}

} // verus!

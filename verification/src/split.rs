//! Splitting a line on an operator character, and the fixed-priority
//! operator scan.
use vstd::prelude::*;
use crate::outcome::CalcError;

verus! {

/// Whether `c` occurs anywhere in `s`.
pub open spec fn seq_contains(s: Seq<char>, c: char) -> bool {
    exists|i: int| 0 <= i < s.len() && s[i] == c
}

/// How many times `c` occurs in `s`.
pub open spec fn count_char(s: Seq<char>, c: char) -> nat
    decreases s.len(),
{
    if s.len() == 0 {
        0
    } else {
        count_char(s.drop_last(), c) + (if s.last() == c { 1nat } else { 0nat })
    }
}

/// The segments of `s` between occurrences of `op`: splitting on `op`
/// yields one segment more than there are occurrences
/// (`lemma_split_on_len`), each segment free of `op`
/// (`lemma_split_segments_free`), and joining the segments with `op`
/// restores `s` (`lemma_split_join`).
pub open spec fn split_on(s: Seq<char>, op: char) -> Seq<Seq<char>>
    decreases s.len(),
{
    if s.len() == 0 {
        seq![Seq::empty()]
    } else {
        let fore = split_on(s.drop_last(), op);
        if s.last() == op {
            fore.push(Seq::empty())
        } else {
            fore.update(fore.len() - 1, fore.last().push(s.last()))
        }
    }
}

pub proof fn lemma_split_on_len(s: Seq<char>, op: char)
    ensures
        split_on(s, op).len() == count_char(s, op) + 1,
    decreases s.len(),
{
    if s.len() > 0 {
        lemma_split_on_len(s.drop_last(), op);
    }
}

pub proof fn lemma_count_zero_iff(s: Seq<char>, c: char)
    ensures
        (count_char(s, c) == 0) <==> !seq_contains(s, c),
    decreases s.len(),
{
    if s.len() == 0 {
    } else {
        lemma_count_zero_iff(s.drop_last(), c);
        if s.last() == c {
            assert(seq_contains(s, c));
        } else {
            if seq_contains(s.drop_last(), c) {
                let i = choose|i: int| 0 <= i < s.drop_last().len() && s.drop_last()[i] == c;
                assert(s[i] == c);
            }
            if seq_contains(s, c) {
                let i = choose|i: int| 0 <= i < s.len() && s[i] == c;
                assert(i < s.len() - 1);
                assert(s.drop_last()[i] == c);
            }
        }
    }
}

/// The segments joined back with `op` between them.
pub open spec fn join_with(ps: Seq<Seq<char>>, op: char) -> Seq<char>
    decreases ps.len(),
{
    if ps.len() == 0 {
        Seq::empty()
    } else if ps.len() == 1 {
        ps[0]
    } else {
        join_with(ps.drop_last(), op).push(op) + ps.last()
    }
}

/// No segment of a split contains the character that was split on.
pub proof fn lemma_split_segments_free(s: Seq<char>, op: char)
    ensures
        forall|k: int|
            0 <= k < split_on(s, op).len() ==> !seq_contains(#[trigger] split_on(s, op)[k], op),
    decreases s.len(),
{
    if s.len() == 0 {
        assert forall|k: int|
            0 <= k < split_on(s, op).len() implies !seq_contains(
            #[trigger] split_on(s, op)[k],
            op,
        ) by {
            assert(split_on(s, op)[k] =~= Seq::<char>::empty());
        }
    } else {
        lemma_split_segments_free(s.drop_last(), op);
        let fore = split_on(s.drop_last(), op);
        lemma_split_on_len(s.drop_last(), op);
        assert forall|k: int|
            0 <= k < split_on(s, op).len() implies !seq_contains(
            #[trigger] split_on(s, op)[k],
            op,
        ) by {
            if s.last() == op {
                if k < fore.len() {
                    assert(split_on(s, op)[k] == fore[k]);
                } else {
                    assert(split_on(s, op)[k] =~= Seq::<char>::empty());
                }
            } else {
                if k < fore.len() - 1 {
                    assert(split_on(s, op)[k] == fore[k]);
                } else {
                    let t = fore.last();
                    assert(split_on(s, op)[k] == t.push(s.last()));
                    if seq_contains(t.push(s.last()), op) {
                        let i = choose|i: int|
                            0 <= i < t.push(s.last()).len() && t.push(s.last())[i] == op;
                        assert(i < t.len());
                        assert(t[i] == op);
                    }
                }
            }
        }
    }
}

/// Joining the segments of a split with the character that was split on
/// restores the original sequence.
pub proof fn lemma_split_join(s: Seq<char>, op: char)
    ensures
        join_with(split_on(s, op), op) == s,
    decreases s.len(),
{
    if s.len() == 0 {
        assert(join_with(split_on(s, op), op) =~= s);
    } else {
        lemma_split_join(s.drop_last(), op);
        let fore = split_on(s.drop_last(), op);
        lemma_split_on_len(s.drop_last(), op);
        if s.last() == op {
            assert(fore.push(Seq::empty()).drop_last() =~= fore);
            assert(join_with(split_on(s, op), op) =~= s);
        } else {
            let upd = fore.update(fore.len() - 1, fore.last().push(s.last()));
            if fore.len() == 1 {
                assert(join_with(fore, op) == fore[0]);
                assert(upd[0] == fore[0].push(s.last()));
                assert(join_with(upd, op) =~= s);
            } else {
                assert(upd.drop_last() =~= fore.drop_last());
                assert(upd.last() == fore.last().push(s.last()));
                assert(join_with(fore, op) == join_with(fore.drop_last(), op).push(op)
                    + fore.last());
                assert(join_with(upd, op) == join_with(fore.drop_last(), op).push(op)
                    + fore.last().push(s.last()));
                assert(join_with(fore.drop_last(), op).push(op) + fore.last().push(s.last()) =~= (
                join_with(fore.drop_last(), op).push(op) + fore.last()).push(s.last()));
                assert(s.drop_last().push(s.last()) =~= s);
            }
        }
    }
}

/// Splitting a sequence in which `op` does not occur yields that one
/// sequence as the single segment.
pub proof fn lemma_split_no_op(s: Seq<char>, op: char)
    requires
        !seq_contains(s, op),
    ensures
        split_on(s, op) == seq![s],
    decreases s.len(),
{
    if s.len() == 0 {
        assert(split_on(s, op) =~~= seq![s]);
    } else {
        assert(s.last() != op);
        assert(!seq_contains(s.drop_last(), op)) by {
            if seq_contains(s.drop_last(), op) {
                let i = choose|i: int|
                    0 <= i < s.drop_last().len() && s.drop_last()[i] == op;
                assert(s[i] == op);
            }
        }
        lemma_split_no_op(s.drop_last(), op);
        assert(s.drop_last().push(s.last()) =~= s);
        assert(split_on(s, op) =~~= seq![s]);
    }
}

/// Splitting `a <op> b`, where `op` occurs in neither segment, yields
/// exactly the two segments.
pub proof fn lemma_split_pair(a: Seq<char>, b: Seq<char>, op: char)
    requires
        !seq_contains(a, op),
        !seq_contains(b, op),
    ensures
        split_on(a + seq![op] + b, op) == seq![a, b],
    decreases b.len(),
{
    let t = a + seq![op] + b;
    if b.len() == 0 {
        assert(t.drop_last() =~= a);
        assert(t.last() == op);
        lemma_split_no_op(a, op);
        assert(split_on(t, op) =~~= seq![a, b]);
    } else {
        assert(!seq_contains(b.drop_last(), op)) by {
            if seq_contains(b.drop_last(), op) {
                let i = choose|i: int|
                    0 <= i < b.drop_last().len() && b.drop_last()[i] == op;
                assert(b[i] == op);
            }
        }
        lemma_split_pair(a, b.drop_last(), op);
        assert(t.drop_last() =~= a + seq![op] + b.drop_last());
        assert(t.last() == b.last());
        assert(b.last() != op) by {
            assert(b[b.len() - 1] == b.last());
        }
        assert(b.drop_last().push(b.last()) =~= b);
        assert(split_on(t, op) =~~= seq![a, b]);
    }
}

/// Splits `s` into the segments around each occurrence of `op`.
pub fn split_char<'a>(s: &'a str, op: char) -> (parts: Vec<&'a str>)
    ensures
        parts@.map_values(|p: &str| p@) == split_on(s@, op),
{
    let n = s.unicode_len();
    let mut parts: Vec<&'a str> = Vec::new();
    let mut start: usize = 0;
    let mut i: usize = 0;
    proof {
        assert(s@.take(0) =~= Seq::<char>::empty());
        assert(parts@.map_values(|p: &str| p@).push(s@.subrange(0, 0)) =~~= split_on(
            s@.take(0),
            op,
        ));
    }
    while i < n
        invariant
            n == s@.len(),
            start <= i <= n,
            parts@.map_values(|p: &str| p@).push(s@.subrange(start as int, i as int)) == split_on(
                s@.take(i as int),
                op,
            ),
        decreases n - i,
    {
        let ghost pre = parts@.map_values(|p: &str| p@);
        if s.get_char(i) == op {
            let seg = s.substring_char(start, i);
            parts.push(seg);
            proof {
                assert(s@.take(i + 1).drop_last() =~= s@.take(i as int));
                assert(s@.take(i + 1).last() == op);
                assert(parts@.map_values(|p: &str| p@) =~~= pre.push(
                    s@.subrange(start as int, i as int),
                ));
                assert(parts@.map_values(|p: &str| p@).push(s@.subrange(i + 1, i + 1)) =~~=
                    split_on(s@.take(i + 1), op));
            }
            start = i + 1;
        } else {
            proof {
                assert(s@.take(i + 1).drop_last() =~= s@.take(i as int));
                assert(s@.take(i + 1).last() == s@[i as int]);
                assert(s@.subrange(start as int, i as int).push(s@[i as int]) =~= s@.subrange(
                    start as int,
                    i + 1,
                ));
                assert(parts@.map_values(|p: &str| p@).push(s@.subrange(start as int, i + 1)) =~~=
                    split_on(s@.take(i + 1), op));
            }
        }
        i = i + 1;
    }
    let seg = s.substring_char(start, n);
    parts.push(seg);
    proof {
        assert(s@.take(n as int) =~= s@);
        assert(parts@.map_values(|p: &str| p@) =~~= split_on(s@, op));
    }
    parts
}

/// Splits on `op` where `op` occurs in `s`; reports that `op` is absent
/// otherwise.
pub fn try_split<'a>(s: &'a str, op: char) -> (r: Option<Vec<&'a str>>)
    ensures
        match r {
            Some(parts) => seq_contains(s@, op) && parts@.len() >= 2 && parts@.map_values(
                |p: &str| p@,
            ) == split_on(s@, op),
            None => !seq_contains(s@, op),
        },
{
    let parts = split_char(s, op);
    proof {
        lemma_split_on_len(s@, op);
        lemma_count_zero_iff(s@, op);
    }
    if parts.len() >= 2 {
        Some(parts)
    } else {
        None
    }
}

/// The operator that a fixed-priority scan of `s` detects: the first of
/// `+`, `-`, `*`, `/` (in that order) that occurs anywhere in `s`.
pub open spec fn detect_op(s: Seq<char>) -> Option<char> {
    if seq_contains(s, '+') {
        Some('+')
    } else if seq_contains(s, '-') {
        Some('-')
    } else if seq_contains(s, '*') {
        Some('*')
    } else if seq_contains(s, '/') {
        Some('/')
    } else {
        None
    }
}

/// Extracts the operator and the segments of `input` around it.
///
/// The four operator symbols are tried in the fixed priority order
/// `+`, `-`, `*`, `/`; the first that occurs in `input` is chosen and
/// `input` is split on every occurrence of it. When none occurs, the
/// evaluation fails with `CalcError::OperatorNotFound`.
pub fn find_operator<'a>(input: &'a str) -> (r: Result<(char, Vec<&'a str>), CalcError>)
    ensures
        match r {
            Ok((op, parts)) => detect_op(input@) == Some(op) && parts@.len() >= 2
                && parts@.map_values(|p: &str| p@) == split_on(input@, op),
            Err(e) => e == CalcError::OperatorNotFound && detect_op(input@) is None,
        },
{
    if let Some(parts) = try_split(input, '+') {
        return Ok(('+', parts));
    }
    if let Some(parts) = try_split(input, '-') {
        return Ok(('-', parts));
    }
    if let Some(parts) = try_split(input, '*') {
        return Ok(('*', parts));
    }
    if let Some(parts) = try_split(input, '/') {
        return Ok(('/', parts));
    }
    Err(CalcError::OperatorNotFound)
}

} // verus!

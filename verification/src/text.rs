//! Text handling: whitespace trimming and splitting a line on an
//! operator character.
use vstd::prelude::*;

verus! {

/// The whitespace characters that trimming removes from the ends of a line.
pub open spec fn is_ws_char(c: char) -> bool {
    c == ' ' || c == '\t' || c == '\n' || c == '\r'
}

/// A sequence with its leading whitespace removed.
pub open spec fn ltrim(s: Seq<char>) -> Seq<char>
    decreases s.len(),
{
    if s.len() > 0 && is_ws_char(s[0]) {
        ltrim(s.skip(1))
    } else {
        s
    }
}

/// A sequence with its trailing whitespace removed.
pub open spec fn rtrim(s: Seq<char>) -> Seq<char>
    decreases s.len(),
{
    if s.len() > 0 && is_ws_char(s.last()) {
        rtrim(s.drop_last())
    } else {
        s
    }
}

/// A sequence with whitespace removed from both ends.
pub open spec fn trim_spec(s: Seq<char>) -> Seq<char> {
    rtrim(ltrim(s))
}

proof fn lemma_ltrim_skip(s: Seq<char>, i: int)
    requires
        0 <= i <= s.len(),
        forall|k: int| 0 <= k < i ==> is_ws_char(s[k]),
    ensures
        ltrim(s) == ltrim(s.skip(i)),
    decreases i,
{
    if i > 0 {
        lemma_ltrim_skip(s.skip(1), i - 1);
        assert(s.skip(1).skip(i - 1) =~= s.skip(i));
    } else {
        assert(s.skip(0) =~= s);
    }
}

proof fn lemma_ltrim_all_ws(s: Seq<char>)
    requires
        forall|k: int| 0 <= k < s.len() ==> is_ws_char(s[k]),
    ensures
        ltrim(s).len() == 0,
    decreases s.len(),
{
    if s.len() > 0 {
        lemma_ltrim_all_ws(s.skip(1));
    }
}

proof fn lemma_ltrim_no_lead_ws(s: Seq<char>)
    requires
        s.len() == 0 || !is_ws_char(s[0]),
    ensures
        ltrim(s) == s,
{
}

proof fn lemma_rtrim_take(s: Seq<char>, j: int)
    requires
        0 <= j <= s.len(),
        forall|k: int| j <= k < s.len() ==> is_ws_char(s[k]),
    ensures
        rtrim(s) == rtrim(s.take(j)),
    decreases s.len() - j,
{
    if j < s.len() {
        assert(is_ws_char(s.last()));
        lemma_rtrim_take(s.drop_last(), j);
        assert(s.drop_last().take(j) =~= s.take(j));
    } else {
        assert(s.take(j) =~= s);
    }
}

proof fn lemma_rtrim_no_trail_ws(s: Seq<char>)
    requires
        s.len() == 0 || !is_ws_char(s.last()),
    ensures
        rtrim(s) == s,
{
}

/// Trimming a sequence with no whitespace at either end leaves it as it is.
pub proof fn lemma_trim_untrimmed(s: Seq<char>)
    requires
        s.len() == 0 || (!is_ws_char(s[0]) && !is_ws_char(s.last())),
    ensures
        trim_spec(s) == s,
{
    lemma_ltrim_no_lead_ws(s);
    lemma_rtrim_no_trail_ws(s);
}

/// Trimming removes one trailing space from an otherwise untrimmed
/// sequence.
pub proof fn lemma_trim_trailing_space(s: Seq<char>)
    requires
        s.len() > 0,
        !is_ws_char(s[0]),
        !is_ws_char(s.last()),
    ensures
        trim_spec(s + seq![' ']) == s,
{
    let t = s + seq![' '];
    assert(t[0] == s[0]);
    lemma_ltrim_no_lead_ws(t);
    lemma_rtrim_take(t, s.len() as int);
    assert(t.take(s.len() as int) =~= s);
    lemma_rtrim_no_trail_ws(s);
}

/// Trimming removes one leading space from an otherwise untrimmed
/// sequence.
pub proof fn lemma_trim_leading_space(s: Seq<char>)
    requires
        s.len() > 0,
        !is_ws_char(s[0]),
        !is_ws_char(s.last()),
    ensures
        trim_spec(seq![' '] + s) == s,
{
    let t = seq![' '] + s;
    lemma_ltrim_skip(t, 1);
    assert(t.skip(1) =~= s);
    lemma_ltrim_no_lead_ws(s);
    lemma_rtrim_no_trail_ws(s);
}

/// Whether `c` is trimmed away at the ends of a line.
pub fn is_ws(c: char) -> (r: bool)
    ensures
        r == is_ws_char(c),
{
    c == ' ' || c == '\t' || c == '\n' || c == '\r'
}

/// Removes leading and trailing whitespace from a line of text.
pub fn trim_str(s: &str) -> (r: &str)
    ensures
        r@ == trim_spec(s@),
{
    let n = s.unicode_len();
    let mut lo: usize = 0;
    while lo < n && is_ws(s.get_char(lo))
        invariant
            n == s@.len(),
            lo <= n,
            forall|k: int| 0 <= k < lo ==> is_ws_char(s@[k]),
        decreases n - lo,
    {
        lo = lo + 1;
    }
    if lo == n {
        proof {
            lemma_ltrim_all_ws(s@);
            lemma_rtrim_no_trail_ws(ltrim(s@));
            reveal_strlit("");
            assert(""@ =~= trim_spec(s@));
        }
        return "";
    }
    let mut hi: usize = n;
    while lo + 1 < hi && is_ws(s.get_char(hi - 1))
        invariant
            n == s@.len(),
            lo < hi <= n,
            !is_ws_char(s@[lo as int]),
            forall|k: int| hi <= k < n ==> is_ws_char(s@[k]),
        decreases hi,
    {
        hi = hi - 1;
    }
    let r = s.substring_char(lo, hi);
    proof {
        lemma_ltrim_skip(s@, lo as int);
        lemma_ltrim_no_lead_ws(s@.skip(lo as int));
        lemma_rtrim_take(s@.skip(lo as int), hi - lo);
        assert(s@.skip(lo as int).take(hi - lo) =~= s@.subrange(lo as int, hi as int));
        assert(!is_ws_char(s@.subrange(lo as int, hi as int).last()));
        lemma_rtrim_no_trail_ws(s@.subrange(lo as int, hi as int));
    }
    r
}

} // verus!

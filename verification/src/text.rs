//! Character-sequence utilities shared by the recognizer and the event-stream
//! scanner: the sliding-window model, splitting on spaces, and verified
//! character-wise string operations.
use vstd::prelude::*;

verus! {

/// The last `m` elements of `s` (all of `s` when it is shorter).
pub open spec fn last_n(s: Seq<char>, m: int) -> Seq<char> {
    if s.len() <= m {
        s
    } else {
        s.subrange(s.len() - m, s.len() as int)
    }
}

/// Taking a window, appending, and taking a window again gives the same
/// result as appending first: old history beyond the window never matters.
pub proof fn lemma_last_n_extend(a: Seq<char>, b: Seq<char>, m: int)
    requires
        m >= 0,
    ensures
        last_n(last_n(a, m) + b, m) == last_n(a + b, m),
{
    if a.len() <= m {
        assert(last_n(a, m) + b =~= a + b);
    } else {
        let w = last_n(a, m) + b;
        if w.len() <= m {
            assert(b.len() == 0);
            assert(last_n(a, m) + b =~= last_n(a + b, m));
        } else {
            assert(last_n(w, m) =~= last_n(a + b, m));
        }
    }
}

/// The tokens of `s` split on single spaces, in order.  Adjacent spaces
/// yield empty tokens, and the result always has at least one token: the
/// empty string splits to one empty token.
pub open spec fn split_spaces(s: Seq<char>) -> Seq<Seq<char>>
    decreases s.len(),
{
    if s.len() == 0 {
        seq![Seq::<char>::empty()]
    } else if s[0] == ' ' {
        seq![Seq::<char>::empty()] + split_spaces(s.drop_first())
    } else {
        let rest = split_spaces(s.drop_first());
        seq![seq![s[0]] + rest.first()] + rest.drop_first()
    }
}

proof fn lemma_split_spaces_len(s: Seq<char>)
    ensures
        split_spaces(s).len() >= 1,
    decreases s.len(),
{
    if s.len() != 0 {
        lemma_split_spaces_len(s.drop_first());
    }
}

/// Splitting can start from any space-free position `k`: the first token is
/// `s[..k]` glued to the first token of the remainder.
proof fn lemma_split_spaces_skip(s: Seq<char>, k: int)
    requires
        0 <= k <= s.len(),
        forall|j: int| 0 <= j < k ==> s[j] != ' ',
    ensures
        split_spaces(s) == seq![s.take(k) + split_spaces(s.skip(k)).first()] + split_spaces(
            s.skip(k),
        ).drop_first(),
    decreases k,
{
    lemma_split_spaces_len(s.skip(k));
    if k == 0 {
        assert(s.skip(0) =~= s);
        assert(s.take(0) + split_spaces(s).first() =~= split_spaces(s).first());
        assert(seq![split_spaces(s).first()] + split_spaces(s).drop_first() =~= split_spaces(s));
    } else {
        let t = s.drop_first();
        lemma_split_spaces_skip(t, k - 1);
        assert(t.skip(k - 1) =~= s.skip(k));
        let x = split_spaces(s.skip(k)).first();
        assert(seq![s[0]] + (t.take(k - 1) + x) =~= s.take(k) + x);
    }
}

/// A space at `k` with none before it closes the first token at `k`.
proof fn lemma_split_spaces_at(s: Seq<char>, k: int)
    requires
        0 <= k < s.len(),
        s[k] == ' ',
        forall|j: int| 0 <= j < k ==> s[j] != ' ',
    ensures
        split_spaces(s) == seq![s.take(k)] + split_spaces(s.skip(k + 1)),
{
    lemma_split_spaces_skip(s, k);
    assert(s.skip(k).drop_first() =~= s.skip(k + 1));
    assert(s.take(k) + split_spaces(s.skip(k)).first() =~= s.take(k));
    assert(seq![s.take(k)] + split_spaces(s.skip(k + 1)) =~= split_spaces(s));
}

/// A sequence without spaces is a single token.
proof fn lemma_split_spaces_whole(s: Seq<char>)
    requires
        forall|j: int| 0 <= j < s.len() ==> s[j] != ' ',
    ensures
        split_spaces(s) == seq![s],
{
    lemma_split_spaces_skip(s, s.len() as int);
    assert(s.skip(s.len() as int) =~= Seq::<char>::empty());
    assert(s.take(s.len() as int) + split_spaces(Seq::<char>::empty()).first() =~= s);
    assert(seq![s] + split_spaces(Seq::<char>::empty()).drop_first() =~= seq![s]);
}

/// No token of a split is longer than the sequence it came from.
pub proof fn lemma_split_spaces_token_len(s: Seq<char>)
    ensures
        forall|j: int|
            0 <= j < split_spaces(s).len() ==> (#[trigger] split_spaces(s)[j]).len() <= s.len(),
    decreases s.len(),
{
    if s.len() != 0 {
        lemma_split_spaces_token_len(s.drop_first());
        lemma_split_spaces_len(s.drop_first());
    }
}

/// A split has at most one token more than the sequence has characters.
pub proof fn lemma_split_spaces_count(s: Seq<char>)
    ensures
        split_spaces(s).len() <= s.len() + 1,
    decreases s.len(),
{
    if s.len() != 0 {
        lemma_split_spaces_count(s.drop_first());
        lemma_split_spaces_len(s.drop_first());
    }
}

/// Character-wise string equality; equivalent to view equality.
pub fn str_eq(a: &str, b: &str) -> (r: bool)
    ensures
        r == (a@ == b@),
{
    let an = a.unicode_len();
    let bn = b.unicode_len();
    if an != bn {
        return false;
    }
    let mut i: usize = 0;
    while i < an
        invariant
            0 <= i <= an,
            an == a@.len(),
            an == b@.len(),
            forall|j: int| 0 <= j < i ==> a@[j] == b@[j],
        decreases an - i,
    {
        if a.get_char(i) != b.get_char(i) {
            return false;
        }
        i += 1;
    }
    proof {
        assert(a@ =~= b@);
    }
    true
}

/// Does `s` start with `p`, character for character?
pub fn str_starts_with(s: &str, p: &str) -> (r: bool)
    ensures
        r == p@.is_prefix_of(s@),
{
    let sn = s.unicode_len();
    let pn = p.unicode_len();
    if pn > sn {
        return false;
    }
    let mut i: usize = 0;
    while i < pn
        invariant
            0 <= i <= pn <= sn,
            sn == s@.len(),
            pn == p@.len(),
            forall|j: int| 0 <= j < i ==> s@[j] == p@[j],
        decreases pn - i,
    {
        if s.get_char(i) != p.get_char(i) {
            assert(!p@.is_prefix_of(s@));
            return false;
        }
        i += 1;
    }
    proof {
        assert(p@ =~= s@.subrange(0, p@.len() as int));
    }
    true
}

/// Does `s` end with `p`, character for character?
pub fn str_ends_with(s: &str, p: &str) -> (r: bool)
    ensures
        r == p@.is_suffix_of(s@),
{
    let sn = s.unicode_len();
    let pn = p.unicode_len();
    if pn > sn {
        return false;
    }
    let off = sn - pn;
    let mut i: usize = 0;
    while i < pn
        invariant
            0 <= i <= pn <= sn,
            sn == s@.len(),
            pn == p@.len(),
            off == sn - pn,
            forall|j: int| 0 <= j < i ==> s@[off + j] == p@[j],
        decreases pn - i,
    {
        if s.get_char(off + i) != p.get_char(i) {
            assert(!p@.is_suffix_of(s@));
            return false;
        }
        i += 1;
    }
    proof {
        assert(p@ =~= s@.subrange(s@.len() - p@.len(), s@.len() as int));
    }
    true
}

/// Relies on String::push: appends exactly the one character.
#[verifier::external_body]
pub fn push_char(s: &mut String, c: char)
    ensures
        final(s)@ == old(s)@.push(c),
{
    s.push(c);
}

/// The tokens of `s` split on single spaces, left to right.
pub fn split_on_spaces<'a>(s: &'a str) -> (r: Vec<&'a str>)
    ensures
        r@.map_values(|t: &str| t@) == split_spaces(s@),
        r@.len() >= 1,
{
    let n = s.unicode_len();
    let mut toks: Vec<&'a str> = Vec::new();
    let mut start: usize = 0;
    let mut i: usize = 0;
    proof {
        assert(s@.skip(0) =~= s@);
        assert(toks@.map_values(|t: &str| t@) + split_spaces(s@) =~= split_spaces(s@));
    }
    while i < n
        invariant
            0 <= start <= i <= n,
            n == s@.len(),
            forall|j: int| start <= j < i ==> s@[j] != ' ',
            split_spaces(s@) == toks@.map_values(|t: &str| t@) + split_spaces(
                s@.skip(start as int),
            ),
        decreases n - i,
    {
        if s.get_char(i) == ' ' {
            let tok = s.substring_char(start, i);
            proof {
                let rest = s@.skip(start as int);
                lemma_split_spaces_at(rest, i - start);
                assert(rest.take(i - start) =~= s@.subrange(start as int, i as int));
                assert(rest.skip(i - start + 1) =~= s@.skip(i + 1));
                assert((toks@ + seq![tok]).map_values(|t: &str| t@) =~= toks@.map_values(
                    |t: &str| t@,
                ) + seq![tok@]);
                assert(toks@.map_values(|t: &str| t@) + (seq![rest.take(i - start)]
                    + split_spaces(s@.skip(i + 1))) =~= (toks@.map_values(|t: &str| t@) + seq![
                    rest.take(i - start),
                ]) + split_spaces(s@.skip(i + 1)));
            }
            toks.push(tok);
            start = i + 1;
        }
        i += 1;
    }
    let tok = s.substring_char(start, n);
    proof {
        let rest = s@.skip(start as int);
        lemma_split_spaces_whole(rest);
        assert(rest =~= s@.subrange(start as int, n as int));
        assert((toks@ + seq![tok]).map_values(|t: &str| t@) =~= toks@.map_values(|t: &str| t@)
            + seq![tok@]);
        assert(toks@.map_values(|t: &str| t@) + seq![rest] =~= split_spaces(s@));
    }
    toks.push(tok);
    toks
}

} // verus!

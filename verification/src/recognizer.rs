//! The sliding-window recognizer: it buffers the last `BUF_MAX` decoded
//! characters, re-reads the buffer under every candidate layout, scores each
//! reading against the dictionary, and recommends the best-scoring layout
//! once its score clears `SCORE_THRESHOLD`.
//!
//! Scoring splits the re-read buffer on spaces.  The leading token may be
//! truncated on its left, so it is scored as a word suffix; the trailing
//! token may still be growing, so it is scored as a word prefix; only the
//! interior tokens are known to be complete words and get exact-membership
//! credit.
use vstd::prelude::*;

use std::collections::VecDeque;

use crate::layout::{remap_char, unmap_char, Layout};
use crate::text::{
    last_n, lemma_last_n_extend, lemma_split_spaces_count, lemma_split_spaces_token_len, push_char,
    split_on_spaces, split_spaces, str_ends_with, str_eq, str_starts_with,
};

verus! {

broadcast use vstd::std_specs::vecdeque::group_vec_dequeue_axioms;

/// How many recent characters the recognizer window holds.
pub const BUF_MAX: usize = 16;

/// A layout is recommended only when its score strictly exceeds this.
pub const SCORE_THRESHOLD: i64 = 9;

/// Exact-match score of `s`: its length when it is a dictionary word, else 0.
pub open spec fn spec_exact(ws: Seq<Seq<char>>, s: Seq<char>) -> int {
    if ws.contains(s) {
        s.len() as int
    } else {
        0
    }
}

/// Prefix score of `s`: its length when some dictionary word starts with it,
/// else 0.  The empty string scores 0 either way.
pub open spec fn spec_prefix(ws: Seq<Seq<char>>, s: Seq<char>) -> int {
    if exists|j: int| 0 <= j < ws.len() && s.is_prefix_of(#[trigger] ws[j]) {
        s.len() as int
    } else {
        0
    }
}

/// Suffix score of `s`: its length when some dictionary word ends with it,
/// else 0.
pub open spec fn spec_suffix(ws: Seq<Seq<char>>, s: Seq<char>) -> int {
    if exists|j: int| 0 <= j < ws.len() && s.is_suffix_of(#[trigger] ws[j]) {
        s.len() as int
    } else {
        0
    }
}

/// The buffer as it reads under `layout`.
pub open spec fn remap_seq(layout: Layout, s: Seq<char>) -> Seq<char> {
    s.map_values(|c: char| remap_char(layout, c))
}

/// Inverse re-reading, through the layout's inverse table.
pub open spec fn unmap_seq(layout: Layout, s: Seq<char>) -> Seq<char> {
    s.map_values(|c: char| unmap_char(layout, c))
}

/// The token before the first space; empty when `s` holds no space.
pub open spec fn spec_head(s: Seq<char>) -> Seq<char> {
    let t = split_spaces(s);
    if t.len() == 1 {
        Seq::<char>::empty()
    } else {
        t.first()
    }
}

/// The interior tokens: everything strictly between head and tail.
pub open spec fn spec_middle(s: Seq<char>) -> Seq<Seq<char>> {
    let t = split_spaces(s);
    if t.len() == 1 {
        Seq::<Seq<char>>::empty()
    } else {
        t.subrange(1, t.len() - 1)
    }
}

/// The token after the last space; all of `s` when it holds no space.
pub open spec fn spec_tail(s: Seq<char>) -> Seq<char> {
    split_spaces(s).last()
}

/// Sum of exact-match scores over a token list.
pub open spec fn sum_exact(ws: Seq<Seq<char>>, toks: Seq<Seq<char>>) -> int
    decreases toks.len(),
{
    if toks.len() == 0 {
        0
    } else {
        sum_exact(ws, toks.drop_last()) + spec_exact(ws, toks.last())
    }
}

/// Detects typing under the wrong layout from a trailing window of decoded
/// characters.
pub struct Recognizer {
    words: Vec<String>,
    buf: VecDeque<char>,
    buf_max: usize,
}

impl Recognizer {
    /// The dictionary as a sequence of character sequences.
    pub closed spec fn words_view(&self) -> Seq<Seq<char>> {
        self.words.deep_view()
    }

    /// The window contents, oldest first.
    pub closed spec fn buf_view(&self) -> Seq<char> {
        self.buf@
    }

    /// The window bound is the fixed constant and the contents never exceed
    /// it.
    pub closed spec fn wf(&self) -> bool {
        &&& self.buf_max == BUF_MAX
        &&& self.buf@.len() <= self.buf_max
    }

    /// Score of reading the whole window under `layout`: suffix credit for
    /// the head, exact credit for each interior token, prefix credit for the
    /// tail.
    pub closed spec fn spec_evaluate(&self, layout: Layout) -> int {
        let m = remap_seq(layout, self.buf@);
        spec_suffix(self.words_view(), spec_head(m)) + sum_exact(
            self.words_view(),
            spec_middle(m),
        ) + spec_prefix(self.words_view(), spec_tail(m))
    }

    /// The layout recommended for the current window: the highest-scoring
    /// candidate, provided its score exceeds `SCORE_THRESHOLD`; ties go to
    /// the earlier layout in enumeration order.
    pub closed spec fn spec_recommend(&self) -> Option<Layout> {
        let su = self.spec_evaluate(Layout::US);
        let sd = self.spec_evaluate(Layout::Dvorak);
        if su >= sd {
            if su > SCORE_THRESHOLD {
                Some(Layout::US)
            } else {
                None
            }
        } else {
            if sd > SCORE_THRESHOLD {
                Some(Layout::Dvorak)
            } else {
                None
            }
        }
    }

    /// A recognizer over `words` with an empty window.  `words` must already
    /// be lowercase; the dictionary loader is responsible for that.
    pub fn new(words: Vec<String>) -> (r: Recognizer)
        ensures
            r.wf(),
            r.words_view() == words.deep_view(),
            r.buf_view() == Seq::<char>::empty(),
    {
        let r = Recognizer { words, buf: VecDeque::new(), buf_max: BUF_MAX };
        proof {
            assert(r.buf@ =~= Seq::<char>::empty());
        }
        r
    }

    /// Append one decoded character, evicting the oldest once the window is
    /// full: afterwards the window holds exactly the last `buf_max`
    /// characters ever fed.
    pub fn feed(&mut self, c: char)
        requires
            old(self).wf(),
        ensures
            final(self).wf(),
            final(self).words_view() == old(self).words_view(),
            final(self).buf_view() == last_n(old(self).buf_view().push(c), BUF_MAX as int),
    {
        self.buf.push_back(c);
        if self.buf.len() > self.buf_max {
            self.buf.pop_front();
            proof {
                let s = old(self).buf@.push(c);
                assert(s.drop_first() =~= last_n(s, old(self).buf_max as int));
            }
        }
    }

    /// Feed every character of `s` in order.
    pub fn feed_str(&mut self, s: &str)
        requires
            old(self).wf(),
        ensures
            final(self).wf(),
            final(self).words_view() == old(self).words_view(),
            final(self).buf_view() == last_n(old(self).buf_view() + s@, BUF_MAX as int),
    {
        let n = s.unicode_len();
        let mut i: usize = 0;
        proof {
            assert(old(self).buf@ + s@.take(0) =~= old(self).buf@);
            assert(last_n(old(self).buf@, BUF_MAX as int) == old(self).buf@);
        }
        while i < n
            invariant
                0 <= i <= n,
                n == s@.len(),
                self.wf(),
                self.words_view() == old(self).words_view(),
                self.buf@ == last_n(old(self).buf@ + s@.take(i as int), BUF_MAX as int),
            decreases n - i,
        {
            let c = s.get_char(i);
            proof {
                let a = old(self).buf@ + s@.take(i as int);
                lemma_last_n_extend(a, seq![s@[i as int]], BUF_MAX as int);
                assert(last_n(a, BUF_MAX as int).push(s@[i as int]) =~= last_n(
                    a,
                    BUF_MAX as int,
                ) + seq![s@[i as int]]);
                assert(a + seq![s@[i as int]] =~= old(self).buf@ + s@.take(i + 1));
            }
            self.feed(c);
            i += 1;
        }
        proof {
            assert(s@.take(n as int) =~= s@);
        }
    }

    /// Exact-match score of `s` against the dictionary.
    pub fn exact(&self, s: &str) -> (r: i64)
        requires
            s@.len() <= i64::MAX,
        ensures
            r == spec_exact(self.words_view(), s@),
    {
        let n = self.words.len();
        let mut i: usize = 0;
        while i < n
            invariant
                0 <= i <= n,
                n == self.words@.len(),
                s@.len() <= i64::MAX,
                forall|j: int| 0 <= j < i ==> self.words_view()[j] != s@,
            decreases n - i,
        {
            if str_eq(self.words[i].as_str(), s) {
                proof {
                    assert(self.words_view()[i as int] == s@);
                    assert(self.words_view().contains(s@));
                }
                return s.unicode_len() as i64;
            }
            i += 1;
        }
        proof {
            assert(!self.words_view().contains(s@));
        }
        0
    }

    /// Prefix score: `s.len()` when some dictionary word starts with `s`.
    pub fn prefix(&self, s: &str) -> (r: i64)
        requires
            s@.len() <= i64::MAX,
        ensures
            r == spec_prefix(self.words_view(), s@),
    {
        let n = self.words.len();
        let mut i: usize = 0;
        while i < n
            invariant
                0 <= i <= n,
                n == self.words@.len(),
                s@.len() <= i64::MAX,
                forall|j: int| 0 <= j < i ==> !s@.is_prefix_of(#[trigger] self.words_view()[j]),
            decreases n - i,
        {
            if str_starts_with(self.words[i].as_str(), s) {
                proof {
                    assert(s@.is_prefix_of(self.words_view()[i as int]));
                }
                return s.unicode_len() as i64;
            }
            i += 1;
        }
        0
    }

    /// Suffix score: `s.len()` when some dictionary word ends with `s`.
    pub fn suffix(&self, s: &str) -> (r: i64)
        requires
            s@.len() <= i64::MAX,
        ensures
            r == spec_suffix(self.words_view(), s@),
    {
        let n = self.words.len();
        let mut i: usize = 0;
        while i < n
            invariant
                0 <= i <= n,
                n == self.words@.len(),
                s@.len() <= i64::MAX,
                forall|j: int| 0 <= j < i ==> !s@.is_suffix_of(#[trigger] self.words_view()[j]),
            decreases n - i,
        {
            if str_ends_with(self.words[i].as_str(), s) {
                proof {
                    assert(s@.is_suffix_of(self.words_view()[i as int]));
                }
                return s.unicode_len() as i64;
            }
            i += 1;
        }
        0
    }

    /// Re-read `s` as it would appear under `layout`.
    pub fn transform(layout: Layout, s: &str) -> (r: String)
        ensures
            r@ == remap_seq(layout, s@),
    {
        let n = s.unicode_len();
        let mut out = String::new();
        let mut i: usize = 0;
        proof {
            assert(out@ =~= remap_seq(layout, s@.take(0)));
        }
        while i < n
            invariant
                0 <= i <= n,
                n == s@.len(),
                out@ == remap_seq(layout, s@.take(i as int)),
            decreases n - i,
        {
            let c = layout.remap(s.get_char(i));
            push_char(&mut out, c);
            proof {
                assert(remap_seq(layout, s@.take(i + 1)) =~= remap_seq(
                    layout,
                    s@.take(i as int),
                ).push(remap_char(layout, s@[i as int])));
            }
            i += 1;
        }
        proof {
            assert(s@.take(n as int) =~= s@);
        }
        out
    }

    /// Map `s` back through the layout's inverse table.
    pub fn untransform(layout: Layout, s: &str) -> (r: String)
        ensures
            r@ == unmap_seq(layout, s@),
    {
        let n = s.unicode_len();
        let mut out = String::new();
        let mut i: usize = 0;
        proof {
            assert(out@ =~= unmap_seq(layout, s@.take(0)));
        }
        while i < n
            invariant
                0 <= i <= n,
                n == s@.len(),
                out@ == unmap_seq(layout, s@.take(i as int)),
            decreases n - i,
        {
            let c = layout.unmap(s.get_char(i));
            push_char(&mut out, c);
            proof {
                assert(unmap_seq(layout, s@.take(i + 1)) =~= unmap_seq(
                    layout,
                    s@.take(i as int),
                ).push(unmap_char(layout, s@[i as int])));
            }
            i += 1;
        }
        proof {
            assert(s@.take(n as int) =~= s@);
        }
        out
    }

    /// Split into head (before the first space), interior tokens, and tail
    /// (after the last space).  Without any space the whole string is the
    /// tail and the head is empty.
    pub fn split_head_middle_tail<'a>(s: &'a str) -> (r: (&'a str, Vec<&'a str>, &'a str))
        ensures
            r.0@ == spec_head(s@),
            r.1@.map_values(|t: &str| t@) == spec_middle(s@),
            r.2@ == spec_tail(s@),
    {
        let toks = split_on_spaces(s);
        let tn = toks.len();
        if tn == 1 {
            let only = toks[0];
            proof {
                reveal_strlit("");
                assert(""@ =~= Seq::<char>::empty());
                assert(Seq::<&str>::empty().map_values(|t: &str| t@) =~= spec_middle(s@));
            }
            let middle: Vec<&'a str> = Vec::new();
            proof {
                assert(middle@ =~= Seq::<&str>::empty());
            }
            ("", middle, only)
        } else {
            let head = toks[0];
            let tail = toks[tn - 1];
            let mut middle: Vec<&'a str> = Vec::new();
            let mut k: usize = 1;
            while k < tn - 1
                invariant
                    1 <= k <= tn - 1,
                    tn == toks@.len(),
                    toks@.map_values(|t: &str| t@) == split_spaces(s@),
                    middle@ == toks@.subrange(1, k as int),
                decreases tn - 1 - k,
            {
                let t = toks[k];
                proof {
                    assert(toks@.subrange(1, k + 1) =~= toks@.subrange(1, k as int).push(
                        toks@[k as int],
                    ));
                }
                middle.push(t);
                k += 1;
            }
            proof {
                let views = |t: &str| t@;
                assert(middle@.map_values(views) =~= split_spaces(s@).subrange(
                    1,
                    split_spaces(s@).len() - 1,
                ));
                assert(head@ == spec_head(s@));
                assert(tail@ == spec_tail(s@));
            }
            (head, middle, tail)
        }
    }

    /// Score the current window as read under `layout`.
    fn evaluate(&self, layout: Layout) -> (r: i64)
        requires
            self.wf(),
        ensures
            r == self.spec_evaluate(layout),
    {
        let blen = self.buf.len();
        let mut raw = String::new();
        let mut i: usize = 0;
        proof {
            assert(raw@ =~= self.buf@.take(0));
        }
        while i < blen
            invariant
                0 <= i <= blen,
                blen == self.buf@.len(),
                raw@ == self.buf@.take(i as int),
            decreases blen - i,
        {
            let c = self.buf[i];
            push_char(&mut raw, c);
            proof {
                assert(self.buf@.take(i + 1) =~= self.buf@.take(i as int).push(self.buf@[i as int]));
            }
            i += 1;
        }
        proof {
            assert(self.buf@.take(blen as int) =~= self.buf@);
        }
        let mapped = Self::transform(layout, raw.as_str());
        let ghost m = remap_seq(layout, self.buf@);
        proof {
            assert(mapped@ == m);
            assert(m.len() == self.buf@.len());
            lemma_split_spaces_token_len(m);
            lemma_split_spaces_count(m);
        }
        let (head, middle, tail) = Self::split_head_middle_tail(mapped.as_str());
        let ghost ws = self.words_view();
        let ghost mviews = middle@.map_values(|t: &str| t@);
        proof {
            assert(spec_head(m).len() <= m.len());
            assert(spec_tail(m).len() <= m.len());
        }
        let hscore = self.suffix(head);
        let tscore = self.prefix(tail);
        proof {
            assert(hscore <= spec_head(m).len());
            assert(tscore <= spec_tail(m).len());
            assert(sum_exact(ws, mviews.take(0)) == 0);
        }
        let mn = middle.len();
        let mut msum: i64 = 0;
        let mut k: usize = 0;
        while k < mn
            invariant
                0 <= k <= mn,
                mn == middle@.len(),
                self.wf(),
                ws == self.words_view(),
                mviews == middle@.map_values(|t: &str| t@),
                mviews == spec_middle(m),
                m.len() <= BUF_MAX,
                mn <= BUF_MAX,
                forall|j: int| 0 <= j < mn ==> (#[trigger] mviews[j]).len() <= m.len(),
                msum == sum_exact(ws, mviews.take(k as int)),
                0 <= msum <= k * (BUF_MAX as int),
            decreases mn - k,
        {
            let t = middle[k];
            proof {
                assert(t@ == mviews[k as int]);
                assert(t@.len() <= BUF_MAX);
            }
            let e = self.exact(t);
            proof {
                assert(0 <= e <= t@.len());
                assert(mviews.take(k + 1).drop_last() =~= mviews.take(k as int));
                assert(mviews.take(k + 1).last() == mviews[k as int]);
            }
            msum = msum + e;
            k += 1;
        }
        proof {
            assert(mviews.take(mn as int) =~= mviews);
        }
        hscore + msum + tscore
    }

    /// The recommendation for the current window; read-only, so repeated
    /// calls with no intervening `feed` agree.
    pub fn recommend(&self) -> (r: Option<Layout>)
        requires
            self.wf(),
        ensures
            r == self.spec_recommend(),
    {
        let su = self.evaluate(Layout::US);
        let sd = self.evaluate(Layout::Dvorak);
        if su >= sd {
            if su > SCORE_THRESHOLD {
                Some(Layout::US)
            } else {
                None
            }
        } else {
            if sd > SCORE_THRESHOLD {
                Some(Layout::Dvorak)
            } else {
                None
            }
        }
    }
}

/// The longest word length in the dictionary (0 when it is empty).
pub open spec fn max_word_len(ws: Seq<Seq<char>>) -> int
    decreases ws.len(),
{
    if ws.len() == 0 {
        0
    } else {
        let m = max_word_len(ws.drop_last());
        if ws.last().len() > m {
            ws.last().len() as int
        } else {
            m
        }
    }
}

proof fn lemma_word_len_le_max(ws: Seq<Seq<char>>, j: int)
    requires
        0 <= j < ws.len(),
    ensures
        ws[j].len() <= max_word_len(ws),
    decreases ws.len(),
{
    if j < ws.len() - 1 {
        lemma_word_len_le_max(ws.drop_last(), j);
    }
}

/// Exact scoring law: a dictionary word always scores its own length, any
/// non-member scores nothing, and the empty string scores nothing.
pub proof fn lemma_exact_law(ws: Seq<Seq<char>>, s: Seq<char>)
    ensures
        ws.contains(s) ==> spec_exact(ws, s) == s.len(),
        !ws.contains(s) ==> spec_exact(ws, s) == 0,
        spec_exact(ws, Seq::<char>::empty()) == 0,
{
}

/// Prefix and suffix scores are bounded by the longest dictionary word's
/// length.
pub proof fn lemma_prefix_suffix_bounded(ws: Seq<Seq<char>>, s: Seq<char>)
    ensures
        spec_prefix(ws, s) <= max_word_len(ws),
        spec_suffix(ws, s) <= max_word_len(ws),
{
    if exists|j: int| 0 <= j < ws.len() && s.is_prefix_of(#[trigger] ws[j]) {
        let j = choose|j: int| 0 <= j < ws.len() && s.is_prefix_of(#[trigger] ws[j]);
        lemma_word_len_le_max(ws, j);
    }
    if exists|j: int| 0 <= j < ws.len() && s.is_suffix_of(#[trigger] ws[j]) {
        let j = choose|j: int| 0 <= j < ws.len() && s.is_suffix_of(#[trigger] ws[j]);
        lemma_word_len_le_max(ws, j);
    }
}

/// For non-empty `s`, the prefix score equals `s.len()` exactly when some
/// dictionary word starts with `s`.  (The empty string is left out: it
/// scores 0, which equals its length even with no matching word.)
pub proof fn lemma_prefix_full_iff(ws: Seq<Seq<char>>, s: Seq<char>)
    requires
        s.len() > 0,
    ensures
        spec_prefix(ws, s) == s.len() <==> exists|j: int|
            0 <= j < ws.len() && s.is_prefix_of(#[trigger] ws[j]),
{
}

/// For non-empty `s`, the suffix score equals `s.len()` exactly when some
/// dictionary word ends with `s`.
pub proof fn lemma_suffix_full_iff(ws: Seq<Seq<char>>, s: Seq<char>)
    requires
        s.len() > 0,
    ensures
        spec_suffix(ws, s) == s.len() <==> exists|j: int|
            0 <= j < ws.len() && s.is_suffix_of(#[trigger] ws[j]),
{
}

/// The window after feeding the characters of `cs` one by one, starting
/// from `buf`, with bound `m`.
pub open spec fn window_after(buf: Seq<char>, cs: Seq<char>, m: int) -> Seq<char>
    decreases cs.len(),
{
    if cs.len() == 0 {
        buf
    } else {
        window_after(last_n(buf.push(cs.first()), m), cs.drop_first(), m)
    }
}

/// Sliding-window law: after any sequence of single-character feeds the
/// window holds exactly the last `m` characters of history-plus-input, so
/// in particular its length never exceeds `m`.
pub proof fn lemma_feed_window(buf: Seq<char>, cs: Seq<char>, m: int)
    requires
        m >= 0,
        buf.len() <= m,
    ensures
        window_after(buf, cs, m) == last_n(buf + cs, m),
        window_after(buf, cs, m).len() <= m,
    decreases cs.len(),
{
    if cs.len() == 0 {
        assert(buf + cs =~= buf);
    } else {
        let stepped = buf.push(cs.first());
        let b1 = last_n(stepped, m);
        lemma_feed_window(b1, cs.drop_first(), m);
        lemma_last_n_extend(stepped, cs.drop_first(), m);
        assert(stepped + cs.drop_first() =~= buf + cs);
    }
}

/// Recommending is read-only: the result is a function of the recognizer
/// state alone, so any two recommendations computed from the same state,
/// with no `feed` between them, are identical.
pub proof fn lemma_recommend_repeatable(
    r: Recognizer,
    first: Option<Layout>,
    second: Option<Layout>,
)
    requires
        first == r.spec_recommend(),
        second == r.spec_recommend(),
    ensures
        first == second,
{
}

/// Remapping a string through a layout's table and then through its inverse
/// returns the original string, and the other way round.
pub proof fn lemma_remap_seq_round_trip(layout: Layout, s: Seq<char>)
    ensures
        unmap_seq(layout, remap_seq(layout, s)) == s,
        remap_seq(layout, unmap_seq(layout, s)) == s,
{
    assert forall|i: int| 0 <= i < s.len() implies unmap_char(
        layout,
        remap_char(layout, s[i]),
    ) == s[i] && remap_char(layout, unmap_char(layout, s[i])) == s[i] by {
        crate::layout::lemma_remap_round_trip(layout, s[i]);
    }
    assert(unmap_seq(layout, remap_seq(layout, s)) =~= s);
    assert(remap_seq(layout, unmap_seq(layout, s)) =~= s);
}

} // verus!

//! The two-state scanner for the subprocess backend's line-oriented event
//! stream.  In `Cruising` it looks for a line announcing a key press
//! (`EVENT` with a third space-delimited field of `2`); that arms
//! `LookForDetail`, which waits for the following line carrying the numeric
//! key code after a `: ` separator.  A valid code is emitted and the scanner
//! returns to `Cruising`; a non-numeric code is a fatal decode failure.
use vstd::prelude::*;

use crate::text::{split_spaces, split_on_spaces, str_eq, str_starts_with};

verus! {

/// The scanner's two states.
#[derive(Debug, Clone, Copy, PartialEq, Eq, Structural)]
pub enum ScanState {
    /// Looking for a line announcing a key-press event.
    Cruising,
    /// Looking for the following line carrying the numeric key code.
    LookForDetail,
}

/// What one scanned line asks the caller to do.
#[derive(Debug, Clone, Copy, PartialEq, Eq, Structural)]
pub enum ScanAction {
    /// Nothing on this line; keep scanning.
    Nothing,
    /// A key code to deliver to the consumer.
    Key(i64),
    /// A malformed code line: the stream is unusable from here on.
    Fail,
}

/// Is `c` one of the indentation characters a detail line may start with?
pub open spec fn is_indent(c: char) -> bool {
    c == ' ' || c == '\t'
}

/// The number of leading indentation characters of `s`.
pub open spec fn indent_len(s: Seq<char>) -> int
    decreases s.len(),
{
    if s.len() > 0 && is_indent(s[0]) {
        1 + indent_len(s.drop_first())
    } else {
        0
    }
}

/// `s` with its leading indentation removed.
pub open spec fn trimmed(s: Seq<char>) -> Seq<char> {
    s.skip(indent_len(s))
}

proof fn lemma_indent_len_at(s: Seq<char>, k: int)
    requires
        0 <= k <= s.len(),
        forall|j: int| 0 <= j < k ==> is_indent(s[j]),
        k == s.len() || !is_indent(s[k]),
    ensures
        indent_len(s) == k,
    decreases k,
{
    if k > 0 {
        lemma_indent_len_at(s.drop_first(), k - 1);
    }
}

/// How many indentation characters `s` starts with.
fn indent_count(s: &str) -> (k: usize)
    ensures
        k <= s@.len(),
        k as int == indent_len(s@),
{
    let n = s.unicode_len();
    let mut k: usize = 0;
    while k < n
        invariant
            0 <= k <= n,
            n == s@.len(),
            forall|j: int| 0 <= j < k ==> is_indent(s@[j]),
        decreases n - k,
    {
        let c = s.get_char(k);
        if c != ' ' && c != '\t' {
            proof {
                lemma_indent_len_at(s@, k as int);
            }
            return k;
        }
        k += 1;
    }
    proof {
        lemma_indent_len_at(s@, n as int);
    }
    n
}

/// `s` with leading spaces and tabs removed.
pub fn trim_indent<'a>(s: &'a str) -> (r: &'a str)
    ensures
        r@ == trimmed(s@),
{
    let n = s.unicode_len();
    let k = indent_count(s);
    let r = s.substring_char(k, n);
    proof {
        assert(r@ =~= trimmed(s@));
    }
    r
}

/// The position of the first `": "` separator in `s`, if any.
pub open spec fn find_sep(s: Seq<char>) -> Option<int>
    decreases s.len(),
{
    if s.len() < 2 {
        None
    } else if s[0] == ':' && s[1] == ' ' {
        Some(0)
    } else {
        match find_sep(s.drop_first()) {
            None => None,
            Some(i) => Some(i + 1),
        }
    }
}

proof fn lemma_find_sep_at(s: Seq<char>, k: int)
    requires
        0 <= k,
        k + 1 < s.len(),
        s[k] == ':' && s[k + 1] == ' ',
        forall|j: int| 0 <= j < k ==> !((#[trigger] s[j]) == ':' && s[j + 1] == ' '),
    ensures
        find_sep(s) == Some(k),
    decreases k,
{
    if k > 0 {
        lemma_find_sep_at(s.drop_first(), k - 1);
    }
}

proof fn lemma_find_sep_none(s: Seq<char>)
    requires
        forall|j: int| 0 <= j && j + 1 < s.len() ==> !((#[trigger] s[j]) == ':' && s[j + 1] == ' '),
    ensures
        find_sep(s) == None::<int>,
    decreases s.len(),
{
    if s.len() >= 2 {
        lemma_find_sep_none(s.drop_first());
    }
}

proof fn lemma_find_sep_bounds(s: Seq<char>)
    ensures
        find_sep(s) matches Some(i) ==> 0 <= i && i + 2 <= s.len(),
    decreases s.len(),
{
    if s.len() >= 2 {
        lemma_find_sep_bounds(s.drop_first());
    }
}

/// The second `": "`-separated chunk of `s`: the text between the first
/// separator and the next one (or the end).  `None` when `s` holds no
/// separator at all.
pub open spec fn sep_chunk2(s: Seq<char>) -> Option<Seq<char>> {
    match find_sep(s) {
        None => None,
        Some(i) => {
            let rest = s.skip(i + 2);
            match find_sep(rest) {
                None => Some(rest),
                Some(j) => Some(rest.take(j)),
            }
        },
    }
}

/// The position of the first `": "` in `s`, if any.
fn find_sep_str(s: &str) -> (r: Option<usize>)
    ensures
        r is Some <==> find_sep(s@) is Some,
        r matches Some(k) ==> find_sep(s@) == Some(k as int),
{
    let n = s.unicode_len();
    if n < 2 {
        proof {
            lemma_find_sep_none(s@);
        }
        return None;
    }
    let mut k: usize = 0;
    while k + 1 < n
        invariant
            0 <= k <= n - 1,
            n == s@.len(),
            n >= 2,
            forall|j: int| 0 <= j < k ==> !((#[trigger] s@[j]) == ':' && s@[j + 1] == ' '),
        decreases n - k,
    {
        if s.get_char(k) == ':' && s.get_char(k + 1) == ' ' {
            proof {
                lemma_find_sep_at(s@, k as int);
            }
            return Some(k);
        }
        k += 1;
    }
    proof {
        lemma_find_sep_none(s@);
    }
    None
}

/// The second `": "`-separated chunk of `s`, as `sep_chunk2` describes it.
pub fn second_chunk<'a>(s: &'a str) -> (r: Option<&'a str>)
    ensures
        r is Some <==> sep_chunk2(s@) is Some,
        r matches Some(t) ==> sep_chunk2(s@) == Some(t@),
{
    let n = s.unicode_len();
    match find_sep_str(s) {
        None => None,
        Some(i) => {
            proof {
                lemma_find_sep_bounds(s@);
            }
            let rest = s.substring_char(i + 2, n);
            match find_sep_str(rest) {
                None => Some(rest),
                Some(j) => {
                    proof {
                        lemma_find_sep_bounds(rest@);
                    }
                    Some(rest.substring_char(0, j))
                },
            }
        },
    }
}

/// Is `c` an ASCII decimal digit?
pub open spec fn is_digit(c: char) -> bool {
    48 <= c as u32 <= 57
}

/// Are all characters of `s` decimal digits?
pub open spec fn all_digits(s: Seq<char>) -> bool {
    forall|j: int| 0 <= j < s.len() ==> is_digit(#[trigger] s[j])
}

/// The value of a digit string read in base 10.
pub open spec fn digits_val(s: Seq<char>) -> int
    decreases s.len(),
{
    if s.len() == 0 {
        0
    } else {
        digits_val(s.drop_last()) * 10 + (s.last() as u32 - 48)
    }
}

/// The digits of a numeral, after an optional leading sign.
pub open spec fn num_body(s: Seq<char>) -> Seq<char> {
    if s.len() > 0 && (s[0] == '+' || s[0] == '-') {
        s.drop_first()
    } else {
        s
    }
}

/// Does the numeral carry a minus sign?
pub open spec fn num_negative(s: Seq<char>) -> bool {
    s.len() > 0 && s[0] == '-'
}

/// The signed value of a numeral.
pub open spec fn signed_val(s: Seq<char>) -> int {
    if num_negative(s) {
        -digits_val(num_body(s))
    } else {
        digits_val(num_body(s))
    }
}

/// Is `s` a well-formed decimal `i64`: an optional sign, at least one
/// digit, nothing else, and a value in range?
pub open spec fn is_i64_numeral(s: Seq<char>) -> bool {
    &&& num_body(s).len() > 0
    &&& all_digits(num_body(s))
    &&& i64::MIN <= signed_val(s) <= i64::MAX
}

proof fn lemma_digits_val_nonneg(s: Seq<char>)
    requires
        all_digits(s),
    ensures
        digits_val(s) >= 0,
    decreases s.len(),
{
    if s.len() > 0 {
        assert(all_digits(s.drop_last()));
        lemma_digits_val_nonneg(s.drop_last());
    }
}

proof fn lemma_digits_val_prefix(s: Seq<char>, k: int)
    requires
        all_digits(s),
        0 <= k <= s.len(),
    ensures
        digits_val(s.take(k)) <= digits_val(s),
    decreases s.len(),
{
    lemma_digits_val_nonneg(s);
    if k < s.len() {
        assert(all_digits(s.drop_last()));
        assert(s.drop_last().take(k) =~= s.take(k));
        lemma_digits_val_prefix(s.drop_last(), k);
        lemma_digits_val_nonneg(s.drop_last());
    } else {
        assert(s.take(k) =~= s);
    }
}

/// Parse the decimal key code of a detail line, as `str::parse::<i64>`
/// reads it: an optional sign followed by one or more digits, rejected on
/// any other character or on overflow.
pub fn parse_key_code(s: &str) -> (r: Option<i64>)
    ensures
        r is Some <==> is_i64_numeral(s@),
        r matches Some(v) ==> v as int == signed_val(s@),
{
    let n = s.unicode_len();
    let mut i: usize = 0;
    let mut neg = false;
    if n > 0 {
        let c0 = s.get_char(0);
        if c0 == '+' {
            i = 1;
        } else if c0 == '-' {
            neg = true;
            i = 1;
        }
    }
    if i == n {
        return None;
    }
    let ghost body = s@.skip(i as int);
    proof {
        assert(body == num_body(s@));
        assert(neg == num_negative(s@));
    }
    let start = i;
    let mut acc: i64 = 0;
    let mut k: usize = start;
    proof {
        assert(body.take(0) =~= Seq::<char>::empty());
    }
    while k < n
        invariant
            start <= k <= n,
            n == s@.len(),
            start < n,
            body == s@.skip(start as int),
            body == num_body(s@),
            neg == num_negative(s@),
            all_digits(body.take(k - start)),
            acc == -digits_val(body.take(k - start)),
            i64::MIN <= acc <= 0,
        decreases n - k,
    {
        let c = s.get_char(k);
        let cv = c as u32;
        if cv < 48 || cv > 57 {
            proof {
                assert(body[k - start] == s@[k as int]);
                assert(!is_digit(body[k - start]));
                assert(!all_digits(body));
            }
            return None;
        }
        let d = (cv - 48) as i64;
        proof {
            assert(body.take(k - start + 1).drop_last() =~= body.take(k - start));
            assert(body.take(k - start + 1).last() == body[k - start]);
            assert(all_digits(body.take(k - start + 1)));
        }
        let ghost partial = digits_val(body.take(k - start + 1));
        proof {
            assert(partial == digits_val(body.take(k - start)) * 10 + (s@[k as int] as u32 - 48));
        }
        let acc10 = match acc.checked_mul(10) {
            Some(a) => a,
            None => {
                proof {
                    assert(acc * 10 < i64::MIN);
                    assert(partial > (i64::MAX as int) + 1);
                    lemma_overflow_invalid(s@, body, k - start + 1);
                }
                return None;
            },
        };
        acc = match acc10.checked_sub(d) {
            Some(a) => a,
            None => {
                proof {
                    assert(acc10 - d < i64::MIN);
                    assert(partial > (i64::MAX as int) + 1);
                    lemma_overflow_invalid(s@, body, k - start + 1);
                }
                return None;
            },
        };
        proof {
            assert(acc == -partial);
            lemma_digits_val_nonneg(body.take(k - start + 1));
        }
        k += 1;
    }
    proof {
        assert(body.take(n - start) =~= body);
    }
    if neg {
        proof {
            lemma_digits_val_nonneg(body);
        }
        Some(acc)
    } else {
        if acc == i64::MIN {
            proof {
                assert(digits_val(body) == (i64::MAX as int) + 1);
                assert(signed_val(s@) > i64::MAX);
            }
            return None;
        }
        Some(-acc)
    }
}

/// A digit prefix whose value already exceeds what any `i64` can hold (on
/// either side of zero) makes the whole numeral invalid, whatever follows.
proof fn lemma_overflow_invalid(s: Seq<char>, body: Seq<char>, k: int)
    requires
        body == num_body(s),
        0 <= k <= body.len(),
        all_digits(body.take(k)),
        digits_val(body.take(k)) > (i64::MAX as int) + 1,
    ensures
        !is_i64_numeral(s),
{
    if all_digits(body) {
        lemma_digits_val_prefix(body, k);
        assert(digits_val(body) >= digits_val(body.take(k)));
        assert(signed_val(s) > i64::MAX || signed_val(s) < i64::MIN);
    }
}

/// Does `line` announce a key press: it starts with `EVENT` and its third
/// space-delimited field is `2`?
pub open spec fn announces_key_press(line: Seq<char>) -> bool {
    &&& "EVENT"@.is_prefix_of(line)
    &&& split_spaces(line).len() > 2
    &&& split_spaces(line)[2] == "2"@
}

/// Is `line`, once its indentation is removed, a detail line?
pub open spec fn is_detail_line(line: Seq<char>) -> bool {
    "detail:"@.is_prefix_of(trimmed(line))
}

/// One step of the scanner: the next state and what the caller should do
/// with this line.  A key-press announcement arms `LookForDetail`; an armed
/// scanner reads the code from the next detail line, failing the stream on
/// a malformed code; every other line is ignored.
pub open spec fn spec_scan(state: ScanState, line: Seq<char>) -> (ScanState, ScanAction) {
    let armed = if announces_key_press(line) {
        ScanState::LookForDetail
    } else {
        state
    };
    if armed == ScanState::LookForDetail && is_detail_line(line) {
        match sep_chunk2(line) {
            None => (armed, ScanAction::Nothing),
            Some(payload) => if is_i64_numeral(payload) {
                (ScanState::Cruising, ScanAction::Key(signed_val(payload) as i64))
            } else {
                (armed, ScanAction::Fail)
            },
        }
    } else {
        (armed, ScanAction::Nothing)
    }
}

/// Scan one line of the subprocess's output.
pub fn scan_line(state: ScanState, line: &str) -> (r: (ScanState, ScanAction))
    ensures
        r == spec_scan(state, line@),
{
    let mut armed = state;
    if str_starts_with(line, "EVENT") {
        let toks = split_on_spaces(line);
        if toks.len() > 2 && str_eq(toks[2], "2") {
            proof {
                assert(toks@.map_values(|t: &str| t@)[2] == split_spaces(line@)[2]);
            }
            armed = ScanState::LookForDetail;
        }
    }
    proof {
        assert(armed == if announces_key_press(line@) {
            ScanState::LookForDetail
        } else {
            state
        });
    }
    if armed == ScanState::LookForDetail && str_starts_with(trim_indent(line), "detail:") {
        match second_chunk(line) {
            None => (armed, ScanAction::Nothing),
            Some(payload) => match parse_key_code(payload) {
                Some(code) => (ScanState::Cruising, ScanAction::Key(code)),
                None => (armed, ScanAction::Fail),
            },
        }
    } else {
        (armed, ScanAction::Nothing)
    }
}

} // verus!

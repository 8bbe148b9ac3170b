//! Character classification and unsigned-integer parsing used by the
//! index parser and the command-output interpreter.

use vstd::prelude::*;

verus! {

/// The Unicode `White_Space` property, which is what `str::trim` and
/// `str::split_whitespace` split on.
pub open spec fn spec_is_space(c: char) -> bool {
    let u = c as u32;
    u == 0x20 || (0x9 <= u && u <= 0xd) || u == 0x85 || u == 0xa0 || u == 0x1680 || (0x2000 <= u
        && u <= 0x200a) || u == 0x2028 || u == 0x2029 || u == 0x202f || u == 0x205f || u == 0x3000
}

/// Decides whether `c` carries the Unicode `White_Space` property.
pub fn is_space(c: char) -> (r: bool)
    ensures
        r == spec_is_space(c),
{
    let u = c as u32;
    u == 0x20 || (0x9 <= u && u <= 0xd) || u == 0x85 || u == 0xa0 || u == 0x1680 || (0x2000 <= u
        && u <= 0x200a) || u == 0x2028 || u == 0x2029 || u == 0x202f || u == 0x205f || u == 0x3000
}

pub open spec fn spec_is_digit(c: char) -> bool {
    0x30 <= c as u32 && c as u32 <= 0x39
}

pub open spec fn spec_digit_val(c: char) -> int {
    c as u32 - 0x30
}

pub open spec fn spec_all_digits(s: Seq<char>) -> bool {
    forall|i: int| 0 <= i < s.len() ==> spec_is_digit(#[trigger] s[i])
}

/// The number written by a sequence of decimal digits, most significant first.
pub open spec fn spec_digits_val(s: Seq<char>) -> int
    decreases s.len(),
{
    if s.len() == 0 {
        0
    } else {
        spec_digits_val(s.drop_last()) * 10 + spec_digit_val(s.last())
    }
}

/// What `str::parse::<u64>` returns: an optional leading `+`, then one or
/// more decimal digits whose value fits in the type; anything else fails.
pub open spec fn spec_parse_u64(s: Seq<char>) -> Option<u64> {
    let body = if s.len() > 0 && s[0] == '+' {
        s.drop_first()
    } else {
        s
    };
    if body.len() > 0 && spec_all_digits(body) && spec_digits_val(body) <= u64::MAX {
        Some(spec_digits_val(body) as u64)
    } else {
        None
    }
}

/// What `str::parse::<u32>` returns, on the same grammar as `spec_parse_u64`.
pub open spec fn spec_parse_u32(s: Seq<char>) -> Option<u32> {
    let body = if s.len() > 0 && s[0] == '+' {
        s.drop_first()
    } else {
        s
    };
    if body.len() > 0 && spec_all_digits(body) && spec_digits_val(body) <= u32::MAX {
        Some(spec_digits_val(body) as u32)
    } else {
        None
    }
}

proof fn lemma_digits_val_nonneg(s: Seq<char>)
    requires
        spec_all_digits(s),
    ensures
        spec_digits_val(s) >= 0,
    decreases s.len(),
{
    if s.len() > 0 {
        assert(spec_all_digits(s.drop_last()));
        lemma_digits_val_nonneg(s.drop_last());
    }
}

/// Appending one more digit never shrinks the value of an all-digit string.
proof fn lemma_digits_val_monotone(s: Seq<char>, n: int)
    requires
        spec_all_digits(s),
        0 <= n <= s.len(),
    ensures
        spec_digits_val(s.take(n)) <= spec_digits_val(s),
    decreases s.len() - n,
{
    if n < s.len() {
        lemma_digits_val_monotone(s, n + 1);
        let p = s.take(n + 1);
        assert(p.drop_last() =~= s.take(n));
        assert(spec_all_digits(s.take(n))) by {
            assert(forall|i: int| 0 <= i < n ==> s.take(n)[i] == s[i]);
        }
        lemma_digits_val_nonneg(s.take(n));
        assert(spec_digits_val(p) == spec_digits_val(s.take(n)) * 10 + spec_digit_val(s[n]));
    } else {
        assert(s.take(n) =~= s);
    }
}

/// Parses the decimal body of an unsigned number, as `str::parse` does after
/// the optional sign: all of `s[from..]` must be digits and the value must
/// fit in `u64`, else the result is `None`.
fn parse_digits(s: &str, from: usize) -> (r: Option<u64>)
    requires
        from <= s@.len(),
    ensures
        ({
            let body = s@.skip(from as int);
            if body.len() > 0 && spec_all_digits(body) && spec_digits_val(body) <= u64::MAX {
                r == Some(spec_digits_val(body) as u64)
            } else {
                r is None
            }
        }),
{
    let ghost body = s@.skip(from as int);
    let n = s.unicode_len();
    if from == n {
        return None;
    }
    let mut acc: u64 = 0;
    let mut i: usize = from;
    while i < n
        invariant
            from <= i <= n,
            n == s@.len(),
            body == s@.skip(from as int),
            spec_all_digits(body.take(i - from)),
            acc == spec_digits_val(body.take(i - from)),
        decreases n - i,
    {
        let c = s.get_char(i);
        let u = c as u32;
        if u < 0x30 || u > 0x39 {
            proof {
                assert(body[i - from] == c);
            }
            return None;
        }
        let d: u64 = (u - 0x30) as u64;
        proof {
            assert(spec_all_digits(body.take(i + 1 - from))) by {
                assert(forall|k: int|
                    0 <= k < i - from ==> body.take(i + 1 - from)[k] == #[trigger] body.take(
                        i - from,
                    )[k]);
                assert(body.take(i + 1 - from)[i - from] == c);
            }
            assert(body.take(i + 1 - from).drop_last() =~= body.take(i - from));
            lemma_digits_val_nonneg(body.take(i - from));
        }
        if acc > u64::MAX / 10 || (acc == u64::MAX / 10 && d > u64::MAX % 10) {
            proof {
                assert(spec_digits_val(body.take(i + 1 - from)) > u64::MAX);
                if spec_all_digits(body) {
                    lemma_digits_val_monotone(body, i + 1 - from);
                }
            }
            return None;
        }
        acc = acc * 10 + d;
        i = i + 1;
    }
    proof {
        assert(body.take(n - from as int) =~= body);
    }
    Some(acc)
}

/// What `str::parse::<u64>` does: `Some` exactly on an optional `+` followed
/// by digits whose value fits.
pub fn parse_u64(s: &str) -> (r: Option<u64>)
    ensures
        r == spec_parse_u64(s@),
{
    let n = s.unicode_len();
    if n == 0 {
        return None;
    }
    let first = s.get_char(0);
    if first == '+' {
        let r = parse_digits(s, 1);
        proof {
            assert(s@.skip(1) =~= s@.drop_first());
        }
        r
    } else {
        let r = parse_digits(s, 0);
        proof {
            assert(s@.skip(0) =~= s@);
        }
        r
    }
}

/// What `str::parse::<u32>` does, on the same grammar as `parse_u64`.
pub fn parse_u32(s: &str) -> (r: Option<u32>)
    ensures
        r == spec_parse_u32(s@),
{
    let ghost body = if s@.len() > 0 && s@[0] == '+' {
        s@.drop_first()
    } else {
        s@
    };
    match parse_u64(s) {
        Some(v) => {
            proof {
                assert(body.len() > 0 && spec_all_digits(body) && spec_digits_val(body)
                    <= u64::MAX);
                lemma_digits_val_nonneg(body);
                assert(v == spec_digits_val(body));
            }
            if v <= u32::MAX as u64 {
                Some(v as u32)
            } else {
                None
            }
        },
        None => None,
    }
}

/// Whether two string slices hold the same characters.
pub fn str_eq(a: &str, b: &str) -> (r: bool)
    ensures
        r == (a@ == b@),
{
    let n = a.unicode_len();
    if n != b.unicode_len() {
        return false;
    }
    let mut i: usize = 0;
    while i < n
        invariant
            0 <= i <= n,
            n == a@.len() == b@.len(),
            forall|k: int| 0 <= k < i ==> a@[k] == b@[k],
        decreases n - i,
    {
        if a.get_char(i) != b.get_char(i) {
            return false;
        }
        i = i + 1;
    }
    proof {
        assert(a@ =~= b@);
    }
    true
}

/// What `str::trim_start` leaves: the suffix after the leading whitespace.
pub open spec fn spec_trim_start(s: Seq<char>) -> Seq<char>
    decreases s.len(),
{
    if s.len() > 0 && spec_is_space(s[0]) {
        spec_trim_start(s.drop_first())
    } else {
        s
    }
}

/// What `str::trim_end` leaves: the prefix before the trailing whitespace.
pub open spec fn spec_trim_end(s: Seq<char>) -> Seq<char>
    decreases s.len(),
{
    if s.len() > 0 && spec_is_space(s.last()) {
        spec_trim_end(s.drop_last())
    } else {
        s
    }
}

/// What `str::trim` leaves.
pub open spec fn spec_trim(s: Seq<char>) -> Seq<char> {
    spec_trim_end(spec_trim_start(s))
}

/// The length of the longest whitespace-free prefix of `s`.
pub open spec fn spec_token_len(s: Seq<char>) -> int
    decreases s.len(),
{
    if s.len() == 0 || spec_is_space(s[0]) {
        0
    } else {
        1 + spec_token_len(s.drop_first())
    }
}

proof fn lemma_token_len_bounds(s: Seq<char>)
    ensures
        0 <= spec_token_len(s) <= s.len(),
    decreases s.len(),
{
    if s.len() > 0 && !spec_is_space(s[0]) {
        lemma_token_len_bounds(s.drop_first());
    }
}

/// What `str::split_whitespace` yields: the maximal whitespace-free runs,
/// in order.
pub open spec fn spec_tokens(s: Seq<char>) -> Seq<Seq<char>>
    decreases s.len(),
    via spec_tokens_dec
{
    if s.len() == 0 {
        Seq::empty()
    } else if spec_is_space(s[0]) {
        spec_tokens(s.drop_first())
    } else {
        seq![s.take(spec_token_len(s))] + spec_tokens(s.skip(spec_token_len(s)))
    }
}

#[via_fn]
proof fn spec_tokens_dec(s: Seq<char>) {
    if s.len() > 0 && !spec_is_space(s[0]) {
        lemma_token_len_bounds(s.drop_first());
        assert(spec_token_len(s) == 1 + spec_token_len(s.drop_first()));
        lemma_token_len_bounds(s);
    }
}

/// The length of the longest newline-free prefix of `s`.
pub open spec fn spec_line_len(s: Seq<char>) -> int
    decreases s.len(),
{
    if s.len() == 0 || s[0] == '\n' {
        0
    } else {
        1 + spec_line_len(s.drop_first())
    }
}

proof fn lemma_line_len_bounds(s: Seq<char>)
    ensures
        0 <= spec_line_len(s) <= s.len(),
    decreases s.len(),
{
    if s.len() > 0 && s[0] != '\n' {
        lemma_line_len_bounds(s.drop_first());
    }
}

/// What `str::lines` yields: segments split at `\n`, each stripped of one
/// trailing `\r` when a `\n` followed it, the final segment kept as it
/// stands, and no empty segment after a terminating newline.
pub open spec fn spec_lines(s: Seq<char>) -> Seq<Seq<char>>
    decreases s.len(),
    via spec_lines_dec
{
    if s.len() == 0 {
        Seq::empty()
    } else {
        let k = spec_line_len(s);
        if k == s.len() {
            seq![s]
        } else {
            let line = s.take(k);
            let stripped = if line.len() > 0 && line.last() == '\r' {
                line.drop_last()
            } else {
                line
            };
            seq![stripped] + spec_lines(s.skip(k + 1))
        }
    }
}

#[via_fn]
proof fn spec_lines_dec(s: Seq<char>) {
    if s.len() > 0 {
        lemma_line_len_bounds(s);
    }
}

proof fn lemma_trim_start_at(s: Seq<char>, lo: int)
    requires
        0 <= lo <= s.len(),
        forall|k: int| 0 <= k < lo ==> spec_is_space(#[trigger] s[k]),
        lo == s.len() || !spec_is_space(s[lo]),
    ensures
        spec_trim_start(s) == s.skip(lo),
    decreases lo,
{
    if lo == 0 {
        assert(s.skip(0) =~= s);
    } else {
        let t = s.drop_first();
        assert(forall|k: int| 0 <= k < lo - 1 ==> spec_is_space(#[trigger] t[k]));
        lemma_trim_start_at(t, lo - 1);
        assert(t.skip(lo - 1) =~= s.skip(lo));
    }
}

proof fn lemma_trim_end_at(s: Seq<char>, hi: int)
    requires
        0 <= hi <= s.len(),
        forall|k: int| hi <= k < s.len() ==> spec_is_space(#[trigger] s[k]),
        hi == 0 || !spec_is_space(s[hi - 1]),
    ensures
        spec_trim_end(s) == s.take(hi),
    decreases s.len() - hi,
{
    if hi == s.len() {
        assert(s.take(hi) =~= s);
    } else {
        let t = s.drop_last();
        assert(forall|k: int| hi <= k < t.len() ==> spec_is_space(#[trigger] t[k]));
        lemma_trim_end_at(t, hi);
        assert(t.take(hi) =~= s.take(hi));
    }
}

proof fn lemma_token_len_at(s: Seq<char>, m: int)
    requires
        0 <= m <= s.len(),
        forall|k: int| 0 <= k < m ==> !spec_is_space(#[trigger] s[k]),
        m == s.len() || spec_is_space(s[m]),
    ensures
        spec_token_len(s) == m,
    decreases m,
{
    if m > 0 {
        let t = s.drop_first();
        assert(forall|k: int| 0 <= k < m - 1 ==> !spec_is_space(#[trigger] t[k]));
        lemma_token_len_at(t, m - 1);
    }
}

proof fn lemma_line_len_at(s: Seq<char>, m: int)
    requires
        0 <= m <= s.len(),
        forall|k: int| 0 <= k < m ==> #[trigger] s[k] != '\n',
        m == s.len() || s[m] == '\n',
    ensures
        spec_line_len(s) == m,
    decreases m,
{
    if m > 0 {
        let t = s.drop_first();
        assert(forall|k: int| 0 <= k < m - 1 ==> #[trigger] t[k] != '\n');
        lemma_line_len_at(t, m - 1);
    }
}

/// What `str::trim` returns.
pub fn trim(s: &str) -> (r: String)
    ensures
        r@ == spec_trim(s@),
{
    let n = s.unicode_len();
    let mut lo: usize = 0;
    while lo < n && is_space(s.get_char(lo))
        invariant
            0 <= lo <= n,
            n == s@.len(),
            forall|k: int| 0 <= k < lo ==> spec_is_space(#[trigger] s@[k]),
        decreases n - lo,
    {
        lo = lo + 1;
    }
    proof {
        lemma_trim_start_at(s@, lo as int);
    }
    let mut hi: usize = n;
    while hi > lo && is_space(s.get_char(hi - 1))
        invariant
            lo <= hi <= n,
            n == s@.len(),
            forall|k: int| hi <= k < n ==> spec_is_space(#[trigger] s@[k]),
        decreases hi,
    {
        hi = hi - 1;
    }
    proof {
        let t = s@.skip(lo as int);
        assert(forall|k: int|
            hi - lo <= k < t.len() ==> spec_is_space(#[trigger] t[k]) && t[k] == s@[k + lo]);
        if hi > lo {
            assert(t[hi - lo - 1] == s@[hi - 1]);
        }
        lemma_trim_end_at(t, hi - lo);
        assert(t.take(hi - lo) =~= s@.subrange(lo as int, hi as int));
    }
    String::from_str(s.substring_char(lo, hi))
}

/// The first whitespace-separated token, or the empty sequence when there
/// is none.
pub open spec fn spec_first_token(s: Seq<char>) -> Seq<char> {
    if spec_tokens(s).len() == 0 {
        Seq::empty()
    } else {
        spec_tokens(s)[0]
    }
}

/// The first whitespace-separated token of `s`, or the empty string when
/// there is none: what `s.split_whitespace().next().unwrap_or("")` returns.
pub fn first_token(s: &str) -> (r: String)
    ensures
        r@ == spec_first_token(s@),
{
    let n = s.unicode_len();
    proof {
        assert(s@.skip(0) =~= s@);
    }
    let mut lo: usize = 0;
    while lo < n && is_space(s.get_char(lo))
        invariant
            0 <= lo <= n,
            n == s@.len(),
            spec_tokens(s@) == spec_tokens(s@.skip(lo as int)),
        decreases n - lo,
    {
        proof {
            assert(s@.skip(lo as int).drop_first() =~= s@.skip(lo + 1));
        }
        lo = lo + 1;
    }
    let ghost t = s@.skip(lo as int);
    if lo == n {
        proof {
            assert(t.len() == 0);
        }
        return String::new();
    }
    let mut hi: usize = lo;
    while hi < n && !is_space(s.get_char(hi))
        invariant
            lo <= hi <= n,
            n == s@.len(),
            forall|k: int| lo <= k < hi ==> !spec_is_space(#[trigger] s@[k]),
        decreases n - hi,
    {
        hi = hi + 1;
    }
    proof {
        assert(forall|k: int| 0 <= k < hi - lo ==> t[k] == s@[k + lo]);
        if hi < n {
            assert(t[hi - lo] == s@[hi as int]);
        }
        lemma_token_len_at(t, hi - lo);
        assert(t.take(hi - lo) =~= s@.subrange(lo as int, hi as int));
        assert(spec_tokens(t)[0] == t.take(hi - lo));
    }
    String::from_str(s.substring_char(lo, hi))
}

/// All whitespace-separated tokens of `s`, in order: what
/// `s.split_whitespace()` yields.
pub fn split_tokens(s: &str) -> (r: Vec<String>)
    ensures
        r.deep_view() == spec_tokens(s@),
{
    let n = s.unicode_len();
    let mut out: Vec<String> = Vec::new();
    proof {
        assert(s@.skip(0) =~= s@);
        assert(out.deep_view() + spec_tokens(s@) =~= spec_tokens(s@));
    }
    let mut i: usize = 0;
    while i < n
        invariant
            0 <= i <= n,
            n == s@.len(),
            spec_tokens(s@) == out.deep_view() + spec_tokens(s@.skip(i as int)),
        decreases n - i,
    {
        if is_space(s.get_char(i)) {
            proof {
                assert(s@.skip(i as int).drop_first() =~= s@.skip(i + 1));
            }
            i = i + 1;
        } else {
            let ghost t = s@.skip(i as int);
            let mut hi: usize = i;
            while hi < n && !is_space(s.get_char(hi))
                invariant
                    i <= hi <= n,
                    n == s@.len(),
                    forall|k: int| i <= k < hi ==> !spec_is_space(#[trigger] s@[k]),
                decreases n - hi,
            {
                hi = hi + 1;
            }
            proof {
                assert(forall|k: int| 0 <= k < hi - i ==> t[k] == s@[k + i]);
                if hi < n {
                    assert(t[hi - i] == s@[hi as int]);
                }
                lemma_token_len_at(t, hi - i);
                assert(t.take(hi - i) =~= s@.subrange(i as int, hi as int));
                assert(t.skip(hi - i) =~= s@.skip(hi as int));
            }
            let tok = String::from_str(s.substring_char(i, hi));
            out.push(tok);
            proof {
                assert(out.deep_view() =~= out.deep_view().drop_last() + seq![
                    s@.subrange(i as int, hi as int),
                ]);
                assert(spec_tokens(s@) == out.deep_view() + spec_tokens(s@.skip(hi as int)));
            }
            i = hi;
        }
    }
    proof {
        assert(spec_tokens(s@.skip(n as int)) =~= Seq::<Seq<char>>::empty());
        assert(spec_tokens(s@) =~= out.deep_view());
    }
    out
}

/// What `str::lines` yields over `s`, in order.
pub fn split_lines(s: &str) -> (r: Vec<String>)
    ensures
        r.deep_view() == spec_lines(s@),
{
    let n = s.unicode_len();
    let mut out: Vec<String> = Vec::new();
    proof {
        assert(s@.skip(0) =~= s@);
        assert(out.deep_view() + spec_lines(s@) =~= spec_lines(s@));
    }
    let mut i: usize = 0;
    while i < n
        invariant
            0 <= i <= n,
            n == s@.len(),
            spec_lines(s@) == out.deep_view() + spec_lines(s@.skip(i as int)),
        decreases n - i,
    {
        let ghost t = s@.skip(i as int);
        let mut hi: usize = i;
        while hi < n && s.get_char(hi) != '\n'
            invariant
                i <= hi <= n,
                n == s@.len(),
                forall|k: int| i <= k < hi ==> #[trigger] s@[k] != '\n',
            decreases n - hi,
        {
            hi = hi + 1;
        }
        proof {
            assert(forall|k: int| 0 <= k < hi - i ==> t[k] == s@[k + i]);
            if hi < n {
                assert(t[hi - i] == s@[hi as int]);
            }
            lemma_line_len_at(t, hi - i);
        }
        if hi == n {
            // final segment without a terminating newline: kept whole
            let line = String::from_str(s.substring_char(i, hi));
            out.push(line);
            proof {
                assert(t.take(hi - i) =~= t);
                assert(t =~= s@.subrange(i as int, hi as int));
                assert(spec_lines(t) == seq![t]);
                assert(out.deep_view() =~= out.deep_view().drop_last() + seq![t]);
                assert(spec_lines(s@.skip(n as int)) =~= Seq::<Seq<char>>::empty());
                assert(spec_lines(s@) == out.deep_view() + spec_lines(s@.skip(n as int)));
            }
            i = hi;
        } else {
            let end = if hi > i && s.get_char(hi - 1) == '\r' {
                hi - 1
            } else {
                hi
            };
            let line = String::from_str(s.substring_char(i, end));
            out.push(line);
            proof {
                let raw = t.take(hi - i);
                assert(raw =~= s@.subrange(i as int, hi as int));
                let stripped = if raw.len() > 0 && raw.last() == '\r' {
                    raw.drop_last()
                } else {
                    raw
                };
                if hi > i {
                    assert(raw.last() == s@[hi - 1]);
                }
                assert(stripped =~= s@.subrange(i as int, end as int));
                assert(t.skip(hi - i + 1) =~= s@.skip(hi + 1));
                assert(spec_lines(t) == seq![stripped] + spec_lines(s@.skip(hi + 1)));
                assert(out.deep_view() =~= out.deep_view().drop_last() + seq![stripped]);
                assert(spec_lines(s@) == out.deep_view() + spec_lines(s@.skip(hi + 1)));
            }
            i = hi + 1;
        }
    }
    proof {
        assert(spec_lines(s@.skip(i as int)) =~= Seq::<Seq<char>>::empty());
        assert(spec_lines(s@) =~= out.deep_view());
    }
    out
}

/// Strict lexicographic order on character sequences by code point, which
/// is the order `str::cmp` yields on UTF-8 text.
pub open spec fn lex_lt(a: Seq<char>, b: Seq<char>) -> bool
    decreases a.len(),
{
    if b.len() == 0 {
        false
    } else if a.len() == 0 {
        true
    } else if (a[0] as u32) < (b[0] as u32) {
        true
    } else if a[0] == b[0] {
        lex_lt(a.drop_first(), b.drop_first())
    } else {
        false
    }
}

proof fn lemma_char_code_inj(c1: char, c2: char)
    requires
        c1 as u32 == c2 as u32,
    ensures
        c1 == c2,
{
}

/// Two distinct sequences are ordered one way or the other.
pub proof fn lemma_lex_connect(a: Seq<char>, b: Seq<char>)
    requires
        a != b,
    ensures
        lex_lt(a, b) || lex_lt(b, a),
    decreases a.len(),
{
    if a.len() == 0 && b.len() == 0 {
        assert(a =~= b);
    } else if a.len() == 0 {
        assert(lex_lt(a, b));
    } else if b.len() == 0 {
        assert(lex_lt(b, a));
    } else if a.len() > 0 && b.len() > 0 && a[0] == b[0] {
        if a.drop_first() =~= b.drop_first() {
            assert forall|k: int| 0 <= k < a.len() implies a[k] == b[k] by {
                if k > 0 {
                    assert(a.drop_first()[k - 1] == b.drop_first()[k - 1]);
                }
            }
            assert(a =~= b);
        } else {
            lemma_lex_connect(a.drop_first(), b.drop_first());
        }
    } else {
        if (a[0] as u32) < (b[0] as u32) {
            assert(lex_lt(a, b));
        } else {
            if a[0] as u32 == b[0] as u32 {
                lemma_char_code_inj(a[0], b[0]);
            }
            assert((b[0] as u32) < (a[0] as u32));
            assert(lex_lt(b, a));
        }
    }
}

/// No sequence sorts strictly before itself.
pub proof fn lemma_lex_irrefl(a: Seq<char>)
    ensures
        !lex_lt(a, a),
    decreases a.len(),
{
    if a.len() > 0 {
        lemma_lex_irrefl(a.drop_first());
    }
}

/// Lexicographic order is transitive.
pub proof fn lemma_lex_trans(a: Seq<char>, b: Seq<char>, c: Seq<char>)
    requires
        lex_lt(a, b),
        lex_lt(b, c),
    ensures
        lex_lt(a, c),
    decreases a.len(),
{
    if a.len() > 0 && b.len() > 0 && c.len() > 0 && a[0] == b[0] && b[0] == c[0] {
        lemma_lex_trans(a.drop_first(), b.drop_first(), c.drop_first());
    }
}

/// Whether `a` sorts strictly before `b`: what `a.cmp(&b)` returning
/// `Less` means for strings.
pub fn str_lt(a: &str, b: &str) -> (r: bool)
    ensures
        r == lex_lt(a@, b@),
{
    let na = a.unicode_len();
    let nb = b.unicode_len();
    let mut i: usize = 0;
    proof {
        assert(a@.skip(0) =~= a@);
        assert(b@.skip(0) =~= b@);
    }
    while i < na && i < nb
        invariant
            0 <= i <= na,
            0 <= i <= nb,
            na == a@.len(),
            nb == b@.len(),
            lex_lt(a@, b@) == lex_lt(a@.skip(i as int), b@.skip(i as int)),
        decreases na - i,
    {
        let ca = a.get_char(i);
        let cb = b.get_char(i);
        proof {
            assert(a@.skip(i as int)[0] == a@[i as int]);
            assert(b@.skip(i as int)[0] == b@[i as int]);
        }
        if (ca as u32) < (cb as u32) {
            return true;
        }
        if (ca as u32) > (cb as u32) {
            return false;
        }
        proof {
            assert(ca == cb);
            assert(a@.skip(i as int).drop_first() =~= a@.skip(i + 1));
            assert(b@.skip(i as int).drop_first() =~= b@.skip(i + 1));
        }
        i = i + 1;
    }
    proof {
        if i == na {
            assert(a@.skip(i as int).len() == 0);
        } else {
            assert(b@.skip(i as int).len() == 0);
        }
    }
    i == na && i < nb
}

} // verus!

use vstd::prelude::*;

use crate::text::{chars_of, is_white_space, string_of, trim, trim_bounds};

verus! {

/// Why a text is not a count (the kinds of `core::num::ParseIntError` that
/// parsing a `usize` can give).
#[derive(Debug, PartialEq, Eq)]
pub enum ParseCountError {
    /// The text is empty.
    Empty,
    /// A character is not a decimal digit (or the text is a lone sign).
    InvalidDigit,
    /// The number does not fit in a `usize`.
    Overflow,
}

impl ParseCountError {
    /// The human-readable description of the error.
    pub fn message(&self) -> (s: String)
        ensures
            s@ == parse_error_text(*self),
    {
        match self {
            ParseCountError::Empty => String::from_str("cannot parse integer from empty string"),
            ParseCountError::InvalidDigit => String::from_str("invalid digit found in string"),
            ParseCountError::Overflow => String::from_str("number too large to fit in target type"),
        }
    }
}

/// The description of each parse error.
pub open spec fn parse_error_text(e: ParseCountError) -> Seq<char> {
    match e {
        ParseCountError::Empty => "cannot parse integer from empty string"@,
        ParseCountError::InvalidDigit => "invalid digit found in string"@,
        ParseCountError::Overflow => "number too large to fit in target type"@,
    }
}

/// A decimal digit.
pub open spec fn is_digit(c: char) -> bool {
    '0' <= c && c <= '9'
}

/// The value of a decimal digit.
pub open spec fn digit_value(c: char) -> int {
    (c as int) - ('0' as int)
}

/// The value of the decimal numeral `s` (all digits, most significant first).
pub open spec fn numeral_value(s: Seq<char>) -> int
    decreases s.len(),
{
    if s.len() == 0 {
        0
    } else {
        numeral_value(s.drop_last()) * 10 + digit_value(s.last())
    }
}

/// How many decimal digits `s` starts with.
pub open spec fn digit_run(s: Seq<char>) -> nat
    decreases s.len(),
{
    if s.len() > 0 && is_digit(s[0]) {
        1 + digit_run(s.drop_first())
    } else {
        0
    }
}

/// `usize::from_str` on `s`: an optional `+` and then decimal digits whose
/// value fits in a `usize`. Reading from the left, a non-digit gives
/// `InvalidDigit` unless the digits before it already overflow.
pub open spec fn parse_usize(s: Seq<char>) -> Result<usize, ParseCountError> {
    if s.len() == 0 {
        Err(ParseCountError::Empty)
    } else {
        let body = if s[0] == '+' {
            s.drop_first()
        } else {
            s
        };
        let k = digit_run(body) as int;
        if body.len() == 0 {
            Err(ParseCountError::InvalidDigit)
        } else if numeral_value(body.take(k)) > usize::MAX {
            Err(ParseCountError::Overflow)
        } else if k < body.len() {
            Err(ParseCountError::InvalidDigit)
        } else {
            Ok(numeral_value(body) as usize)
        }
    }
}

/// What a count text holds: `text` trimmed of white space, then parsed as a
/// `usize`.
pub open spec fn count_of(text: Seq<char>) -> Result<usize, ParseCountError> {
    parse_usize(trim(text))
}

/// A count text read leniently: its count, or 0 when it holds none.
pub open spec fn count_or_zero_of(text: Seq<char>) -> usize {
    match count_of(text) {
        Ok(n) => n,
        Err(_) => 0,
    }
}

/// The digits of `s` are exactly its first `k` characters when those are
/// digits and the next one is not (or `s` ends).
proof fn lemma_digit_run(s: Seq<char>, k: int)
    requires
        0 <= k <= s.len(),
        forall|j: int| 0 <= j < k ==> is_digit(#[trigger] s[j]),
        k == s.len() || !is_digit(s[k]),
    ensures
        digit_run(s) == k,
    decreases k,
{
    if k > 0 {
        let t = s.drop_first();
        assert forall|j: int| 0 <= j < k - 1 implies is_digit(#[trigger] t[j]) by {
            assert(t[j] == s[j + 1]);
        }
        if k < s.len() {
            assert(t[k - 1] == s[k]);
        }
        lemma_digit_run(t, k - 1);
    }
}

/// A longer run of digits never has a smaller value.
proof fn lemma_numeral_monotone(s: Seq<char>, i: int, j: int)
    requires
        0 <= i <= j <= s.len(),
        forall|x: int| 0 <= x < j ==> is_digit(#[trigger] s[x]),
    ensures
        numeral_value(s.take(i)) <= numeral_value(s.take(j)),
        numeral_value(s.take(i)) >= 0,
    decreases j - i,
{
    if i < j {
        lemma_numeral_monotone(s, i, j - 1);
        assert(s.take(j).drop_last() =~= s.take(j - 1));
        assert(s.take(j).last() == s[j - 1]);
    } else {
        lemma_numeral_nonneg(s.take(i));
        assert forall|x: int| 0 <= x < s.take(i).len() implies is_digit(#[trigger] s.take(i)[x]) by {}
    }
}

/// A numeral has a value of at least 0.
proof fn lemma_numeral_nonneg(s: Seq<char>)
    requires
        forall|x: int| 0 <= x < s.len() ==> is_digit(#[trigger] s[x]),
    ensures
        numeral_value(s) >= 0,
    decreases s.len(),
{
    if s.len() > 0 {
        let t = s.drop_last();
        assert forall|x: int| 0 <= x < t.len() implies is_digit(#[trigger] t[x]) by {
            assert(t[x] == s[x]);
        }
        lemma_numeral_nonneg(t);
        assert(is_digit(s[s.len() - 1]));
    }
}

/// Parses the characters `s[a..b]` as a `usize`.
fn parse_chars(s: &Vec<char>, a: usize, b: usize) -> (r: Result<usize, ParseCountError>)
    requires
        a <= b <= s.len(),
    ensures
        r == parse_usize(s@.subrange(a as int, b as int)),
{
    let ghost t = s@.subrange(a as int, b as int);
    if a == b {
        return Err(ParseCountError::Empty);
    }
    let start = if s[a] == '+' {
        a + 1
    } else {
        a
    };
    let ghost body = s@.subrange(start as int, b as int);
    assert(body == (if t[0] == '+' {
        t.drop_first()
    } else {
        t
    }));
    if start == b {
        return Err(ParseCountError::InvalidDigit);
    }
    let mut value: usize = 0;
    let mut i: usize = start;
    while i < b
        invariant
            start <= i <= b <= s.len(),
            t == s@.subrange(a as int, b as int),
            t.len() > 0,
            body == (if t[0] == '+' {
                t.drop_first()
            } else {
                t
            }),
            body.len() > 0,
            body == s@.subrange(start as int, b as int),
            forall|j: int| 0 <= j < i - start ==> is_digit(#[trigger] body[j]),
            value == numeral_value(body.take(i - start)),
        decreases b - i,
    {
        let c = s[i];
        if !('0' <= c && c <= '9') {
            proof {
                assert(body[i - start] == c);
                lemma_digit_run(body, i - start);
            }
            return Err(ParseCountError::InvalidDigit);
        }
        let d = (c as u32 - 48) as usize;
        proof {
            assert(d == digit_value(c));
            assert(body[i - start] == c);
            assert(body.take(i - start + 1).drop_last() =~= body.take(i - start));
            assert(body.take(i - start + 1).last() == c);
        }
        match value.checked_mul(10) {
            Some(v) => match v.checked_add(d) {
                Some(w) => {
                    value = w;
                },
                None => {
                    proof {
                        lemma_overflow_first(body, i - start + 1);
                    }
                    return Err(ParseCountError::Overflow);
                },
            },
            None => {
                proof {
                    lemma_overflow_first(body, i - start + 1);
                }
                return Err(ParseCountError::Overflow);
            },
        }
        i = i + 1;
    }
    proof {
        lemma_digit_run(body, body.len() as int);
        assert(body.take(body.len() as int) =~= body);
    }
    Ok(value)
}

/// When the digits read so far already overflow, parsing reports an overflow.
proof fn lemma_overflow_first(body: Seq<char>, p: int)
    requires
        0 < p <= body.len(),
        body.len() > 0,
        forall|j: int| 0 <= j < p ==> is_digit(#[trigger] body[j]),
        numeral_value(body.take(p)) > usize::MAX,
    ensures
        numeral_value(body.take(digit_run(body) as int)) > usize::MAX,
        digit_run(body) >= p,
{
    let k = lemma_digit_run_at_least(body, p);
    lemma_numeral_monotone(body, p, k);
}

/// The digit run of `body` reaches past `p` when its first `p` characters
/// are digits; all characters of the run are digits.
proof fn lemma_digit_run_at_least(body: Seq<char>, p: int) -> (k: int)
    requires
        0 <= p <= body.len(),
        forall|j: int| 0 <= j < p ==> is_digit(#[trigger] body[j]),
    ensures
        k == digit_run(body),
        p <= k <= body.len(),
        forall|j: int| 0 <= j < k ==> is_digit(#[trigger] body[j]),
    decreases body.len(),
{
    if body.len() > 0 && is_digit(body[0]) {
        let t = body.drop_first();
        assert forall|j: int| 0 <= j < (if p > 0 { p - 1 } else { 0 }) implies is_digit(#[trigger] t[j]) by {
            assert(t[j] == body[j + 1]);
        }
        let k1 = lemma_digit_run_at_least(t, if p > 0 { p - 1 } else { 0 });
        assert forall|j: int| 0 <= j < k1 + 1 implies is_digit(#[trigger] body[j]) by {
            if j > 0 {
                assert(body[j] == t[j - 1]);
            }
        }
        k1 + 1
    } else {
        if p > 0 {
            assert(is_digit(body[0]));
        }
        0
    }
}

/// Read a count: `text` trimmed of white space and parsed as a `usize`.
pub fn parse_count(text: &str) -> (r: Result<usize, ParseCountError>)
    ensures
        r == count_of(text@),
{
    let chars = chars_of(text);
    let (a, b) = trim_bounds(&chars);
    parse_chars(&chars, a, b)
}

/// Read a count leniently: the count that `text` holds, or 0 when it holds none.
pub fn count_or_zero(text: &str) -> (n: usize)
    ensures
        n == count_or_zero_of(text@),
{
    match parse_count(text) {
        Ok(n) => n,
        Err(_) => 0,
    }
}


/// The digit character for `d` (`0 <= d < 10`).
pub open spec fn digit_char(d: int) -> char {
    ((d + 48) as u32) as char
}

/// The decimal numeral of `n`, without leading zeros (`0` for zero), as
/// `usize::to_string` writes it.
pub open spec fn decimal(n: nat) -> Seq<char>
    decreases n,
{
    if n < 10 {
        seq![digit_char(n as int)]
    } else {
        decimal(n / 10).push(digit_char((n % 10) as int))
    }
}

/// Appends the decimal numeral of `n` to `out`.
fn push_decimal(out: &mut Vec<char>, n: usize)
    ensures
        final(out)@ == old(out)@ + decimal(n as nat),
    decreases n,
{
    if n >= 10 {
        push_decimal(out, n / 10);
    }
    let d = (n % 10) as u8;
    let c = (48u8 + d) as char;
    assert(c == digit_char((n % 10) as int));
    out.push(c);
}

/// The decimal numeral of `n`.
pub fn decimal_string(n: usize) -> (s: String)
    ensures
        s@ == decimal(n as nat),
{
    let mut out: Vec<char> = Vec::new();
    push_decimal(&mut out, n);
    assert(out@ =~= decimal(n as nat));
    string_of(&out)
}

/// The counter after one more commit: the lenient count of `text` plus one
/// (wrapping at `usize::MAX`, as a release build does).
pub open spec fn next_counter_value(text: Seq<char>) -> usize {
    if count_or_zero_of(text) == usize::MAX {
        0
    } else {
        (count_or_zero_of(text) + 1) as usize
    }
}

/// The text of the counter file after one more commit had co-author lines
/// removed: the decimal numeral of the incremented count.
pub fn bumped_counter(text: &str) -> (s: String)
    ensures
        s@ == decimal(next_counter_value(text@) as nat),
{
    let n = count_or_zero(text);
    decimal_string(n.wrapping_add(1))
}

/// Every character of a decimal numeral is a digit, and the numeral reads
/// back as the number.
proof fn lemma_decimal(n: nat)
    ensures
        decimal(n).len() > 0,
        forall|j: int| 0 <= j < decimal(n).len() ==> is_digit(#[trigger] decimal(n)[j]),
        numeral_value(decimal(n)) == n,
    decreases n,
{
    if n >= 10 {
        lemma_decimal(n / 10);
        let p = decimal(n / 10);
        let d = decimal(n);
        assert(d == p.push(digit_char((n % 10) as int)));
        assert forall|j: int| 0 <= j < d.len() implies is_digit(#[trigger] d[j]) by {
            if j < p.len() {
                assert(d[j] == p[j]);
            }
        }
        assert(d.drop_last() =~= p);
        assert(d.last() == digit_char((n % 10) as int));
        assert(digit_value(digit_char((n % 10) as int)) == n % 10);
        assert(n == (n / 10) * 10 + n % 10);
        assert(numeral_value(d) == numeral_value(d.drop_last()) * 10 + digit_value(d.last()));
    } else {
        assert(decimal(n).drop_last() =~= Seq::<char>::empty());
        assert(decimal(n).last() == digit_char(n as int));
        assert(digit_value(digit_char(n as int)) == n);
        assert(numeral_value(decimal(n)) == numeral_value(decimal(n).drop_last()) * 10 + digit_value(
            decimal(n).last(),
        ));
        assert(numeral_value(Seq::<char>::empty()) == 0);
    }
}

/// The count written as a decimal numeral reads back as the same count.
pub proof fn law_decimal_reads_back(n: usize)
    ensures
        count_of(decimal(n as nat)) == Ok::<usize, ParseCountError>(n),
{
    let d = decimal(n as nat);
    lemma_decimal(n as nat);
    assert(!is_white_space(d[0]));
    assert(!is_white_space(d[d.len() - 1]));
    crate::text::lemma_ws_prefix_len(d, 0);
    assert(d.skip(0) =~= d);
    crate::text::lemma_ws_suffix_len(d, 0);
    assert(trim(d) =~= d);
    assert(d[0] != '+');
    lemma_digit_run(d, d.len() as int);
    assert(d.take(d.len() as int) =~= d);
}

/// The counter protocol: reading the counter file after a bump gives the
/// previous lenient count plus one (wrapping at `usize::MAX`).
pub proof fn law_bumped_counter_reads_back(text: Seq<char>)
    ensures
        count_or_zero_of(decimal(next_counter_value(text) as nat)) == next_counter_value(text),
{
    law_decimal_reads_back(next_counter_value(text));
}


/// The counter file's text after editing one commit message from which
/// `removed` lines were stripped: bumped when at least one line was
/// removed, else unchanged.
pub open spec fn counter_after_edit(removed: usize, text: Seq<char>) -> Seq<char> {
    if removed > 0 {
        decimal(next_counter_value(text) as nat)
    } else {
        text
    }
}

/// The new text of the counter file after a commit message lost `removed`
/// lines: the bumped counter when a line was removed, or nothing to write
/// when none was (the commit does not count as rewritten).
pub fn next_counter(removed: usize, counter: &str) -> (r: Option<String>)
    ensures
        removed > 0 ==> (r matches Some(s) && s@ == counter_after_edit(removed, counter@)),
        removed == 0 ==> r is None,
{
    if removed > 0 {
        Some(bumped_counter(counter))
    } else {
        None
    }
}

/// The counter file's text after editing commit messages that lost
/// `removed[0]`, `removed[1]`, ... lines, in order, starting from `text`.
pub open spec fn counter_after_edits(text: Seq<char>, removed: Seq<usize>) -> Seq<char>
    decreases removed.len(),
{
    if removed.len() == 0 {
        text
    } else {
        counter_after_edit(removed.last(), counter_after_edits(text, removed.drop_last()))
    }
}

/// How many of the edited commit messages lost at least one line.
pub open spec fn edited_commits(removed: Seq<usize>) -> nat
    decreases removed.len(),
{
    if removed.len() == 0 {
        0
    } else if removed.last() > 0 {
        edited_commits(removed.drop_last()) + 1
    } else {
        edited_commits(removed.drop_last())
    }
}

/// The summary count: starting the counter file at `start` and editing the
/// commit messages in turn, the counter reads `start` plus the number of
/// messages that lost at least one line (not the number of lines removed),
/// as long as that fits in a `usize`.
pub proof fn law_counter_counts_edited_commits(start: usize, removed: Seq<usize>)
    requires
        start + edited_commits(removed) <= usize::MAX,
    ensures
        count_or_zero_of(counter_after_edits(decimal(start as nat), removed)) == start + edited_commits(
            removed,
        ),
    decreases removed.len(),
{
    if removed.len() == 0 {
        law_decimal_reads_back(start);
    } else {
        let init = removed.drop_last();
        law_counter_counts_edited_commits(start, init);
        if removed.last() > 0 {
            let prev = counter_after_edits(decimal(start as nat), init);
            law_decimal_reads_back(next_counter_value(prev));
        }
    }
}


/// What a successful read of a count means: the text, trimmed of white
/// space, is an optional `+` and then one or more decimal digits whose
/// value is the count.
pub proof fn law_count_read(text: Seq<char>)
    ensures
        count_of(text) matches Ok(n) ==> ({
            let t = trim(text);
            let b = if t.len() > 0 && t[0] == '+' {
                t.drop_first()
            } else {
                t
            };
            &&& b.len() > 0
            &&& forall|j: int| 0 <= j < b.len() ==> is_digit(#[trigger] b[j])
            &&& numeral_value(b) == n
        }),
{
    let t = trim(text);
    if t.len() > 0 {
        let b = if t[0] == '+' {
            t.drop_first()
        } else {
            t
        };
        let k = lemma_digit_run_at_least(b, 0);
        if k == b.len() {
            assert(b.take(k) =~= b);
            lemma_numeral_nonneg(b);
        }
    }
}

} // verus!

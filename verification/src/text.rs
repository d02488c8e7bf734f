use vstd::prelude::*;

verus! {

// ---------------------------------------------------------------------------
// Characters
// ---------------------------------------------------------------------------

/// The Unicode `White_Space` property, as `char::is_whitespace` and the
/// `trim` family of `str` use it.
pub open spec fn is_white_space(c: char) -> bool {
    ||| ('\u{9}' <= c && c <= '\u{d}')
    ||| c == ' '
    ||| c == '\u{85}'
    ||| c == '\u{a0}'
    ||| c == '\u{1680}'
    ||| ('\u{2000}' <= c && c <= '\u{200a}')
    ||| c == '\u{2028}'
    ||| c == '\u{2029}'
    ||| c == '\u{202f}'
    ||| c == '\u{205f}'
    ||| c == '\u{3000}'
}

/// Whether `c` has the Unicode `White_Space` property.
pub fn white_space(c: char) -> (r: bool)
    ensures
        r == is_white_space(c),
{
    ('\u{9}' <= c && c <= '\u{d}') || c == ' ' || c == '\u{85}' || c == '\u{a0}' || c == '\u{1680}'
        || ('\u{2000}' <= c && c <= '\u{200a}') || c == '\u{2028}' || c == '\u{2029}' || c
        == '\u{202f}' || c == '\u{205f}' || c == '\u{3000}'
}

/// ASCII lower-casing of one character: `A`..=`Z` map to `a`..=`z`,
/// every other character stays.
pub open spec fn ascii_lower(c: char) -> char {
    if 'A' <= c && c <= 'Z' {
        ((c as u32) + 32) as char
    } else {
        c
    }
}

/// Number of leading white-space characters of `s`.
pub open spec fn ws_prefix_len(s: Seq<char>) -> nat
    decreases s.len(),
{
    if s.len() > 0 && is_white_space(s[0]) {
        1 + ws_prefix_len(s.drop_first())
    } else {
        0
    }
}

/// `s` with its leading white space removed.
pub open spec fn trim_start(s: Seq<char>) -> Seq<char> {
    s.skip(ws_prefix_len(s) as int)
}

/// Whether `s` holds nothing but white space (its trimmed form is empty).
pub open spec fn is_blank(s: Seq<char>) -> bool {
    forall|i: int| 0 <= i < s.len() ==> is_white_space(#[trigger] s[i])
}

/// The leading white space of `s` is exactly its first `n` characters
/// when those are white space and the next one is not (or `s` ends).
pub proof fn lemma_ws_prefix_len(s: Seq<char>, n: int)
    requires
        0 <= n <= s.len(),
        forall|j: int| 0 <= j < n ==> is_white_space(#[trigger] s[j]),
        n == s.len() || !is_white_space(s[n]),
    ensures
        ws_prefix_len(s) == n,
    decreases n,
{
    if n > 0 {
        let t = s.drop_first();
        assert forall|j: int| 0 <= j < n - 1 implies is_white_space(#[trigger] t[j]) by {
            assert(t[j] == s[j + 1]);
        }
        if n < s.len() {
            assert(t[n - 1] == s[n]);
        }
        lemma_ws_prefix_len(t, n - 1);
    }
}

/// The leading white space never exceeds the whole sequence.
pub proof fn lemma_ws_prefix_len_bound(s: Seq<char>)
    ensures
        ws_prefix_len(s) <= s.len(),
        forall|j: int| 0 <= j < ws_prefix_len(s) ==> is_white_space(#[trigger] s[j]),
        ws_prefix_len(s) == s.len() || !is_white_space(s[ws_prefix_len(s) as int]),
    decreases s.len(),
{
    if s.len() > 0 && is_white_space(s[0]) {
        let t = s.drop_first();
        lemma_ws_prefix_len_bound(t);
        assert forall|j: int| 0 <= j < ws_prefix_len(s) implies is_white_space(#[trigger] s[j]) by {
            if j > 0 {
                assert(s[j] == t[j - 1]);
            }
        }
        if ws_prefix_len(s) < s.len() {
            assert(s[ws_prefix_len(s) as int] == t[ws_prefix_len(t) as int]);
        }
    }
}

/// Length of the leading white space of `s`.
pub fn leading_white_space(s: &Vec<char>) -> (n: usize)
    ensures
        n == ws_prefix_len(s@),
        n <= s.len(),
{
    let mut i: usize = 0;
    while i < s.len() && white_space(s[i])
        invariant
            i <= s.len(),
            forall|j: int| 0 <= j < i ==> is_white_space(#[trigger] s@[j]),
        decreases s.len() - i,
    {
        i = i + 1;
    }
    proof {
        lemma_ws_prefix_len(s@, i as int);
    }
    i
}

/// Whether `s` holds nothing but white space.
pub fn blank(s: &Vec<char>) -> (r: bool)
    ensures
        r == is_blank(s@),
{
    let n = leading_white_space(s);
    proof {
        lemma_ws_prefix_len_bound(s@);
    }
    n == s.len()
}

// ---------------------------------------------------------------------------
// Conversions between strings and character vectors
// ---------------------------------------------------------------------------

/// Copies the characters of `s` into a vector.
pub fn chars_of(s: &str) -> (v: Vec<char>)
    ensures
        v@ == s@,
{
    let mut v: Vec<char> = Vec::new();
    for c in it: s.chars()
        invariant
            v@ == it.seq().take(it.index() as int),
            it.seq() == s@,
    {
        v.push(c);
    }
    v
}

/// `String::push`: appends one character to a string.
#[verifier::external_body]
fn push_char(s: &mut String, c: char)
    ensures
        final(s)@ == old(s)@.push(c),
{
    s.push(c);
}

/// Collects the characters of `v` into a string.
pub fn string_of(v: &Vec<char>) -> (s: String)
    ensures
        s@ == v@,
{
    let mut s = String::new();
    for i in 0..v.len()
        invariant
            s@ == v@.take(i as int),
    {
        push_char(&mut s, v[i]);
        assert(v@.take(i + 1) == v@.take(i as int).push(v@[i as int]));
    }
    assert(v@.take(v.len() as int) == v@);
    s
}


// ---------------------------------------------------------------------------
// Lines
// ---------------------------------------------------------------------------

/// A line with the carriage return of a `\r\n` ending removed.
pub open spec fn strip_cr(l: Seq<char>) -> Seq<char> {
    if l.len() > 0 && l.last() == '\r' {
        l.drop_last()
    } else {
        l
    }
}

/// Reading `s` from the left: the lines ended by a `\n` so far (each with
/// the `\r` of a `\r\n` ending removed), and the characters after the last `\n`.
pub open spec fn scan_lines(s: Seq<char>) -> (Seq<Seq<char>>, Seq<char>)
    decreases s.len(),
{
    if s.len() == 0 {
        (seq![], seq![])
    } else {
        let (done, cur) = scan_lines(s.drop_last());
        if s.last() == '\n' {
            (done.push(strip_cr(cur)), seq![])
        } else {
            (done, cur.push(s.last()))
        }
    }
}

/// The lines of `s` as `str::lines` yields them: split at `\n`, a `\r`
/// right before a `\n` removed, and no empty line after a final `\n`.
pub open spec fn lines(s: Seq<char>) -> Seq<Seq<char>> {
    let (done, cur) = scan_lines(s);
    if cur.len() == 0 {
        done
    } else {
        done.push(cur)
    }
}

/// The lines `ls` joined with `\n` between neighbours.
pub open spec fn join_lines(ls: Seq<Seq<char>>) -> Seq<char>
    decreases ls.len(),
{
    if ls.len() == 0 {
        seq![]
    } else if ls.len() == 1 {
        ls[0]
    } else {
        join_lines(ls.drop_last()) + seq!['\n'] + ls.last()
    }
}

/// No line of `ls` holds a `\n`.
pub open spec fn no_newlines(ls: Seq<Seq<char>>) -> bool {
    forall|i: int, j: int| 0 <= i < ls.len() && 0 <= j < ls[i].len() ==> ls[i][j] != '\n'
}

/// Splits `s` into its lines.
pub fn split_lines(s: &Vec<char>) -> (ls: Vec<Vec<char>>)
    ensures
        ls.deep_view() == lines(s@),
{
    let mut done: Vec<Vec<char>> = Vec::new();
    let mut cur: Vec<char> = Vec::new();
    for i in 0..s.len()
        invariant
            (done.deep_view(), cur@) == scan_lines(s@.take(i as int)),
    {
        let c = s[i];
        assert(s@.take(i + 1).drop_last() == s@.take(i as int));
        if c == '\n' {
            let n = cur.len();
            if n > 0 && cur[n - 1] == '\r' {
                cur.pop();
            }
            let line = cur;
            let ghost before = done.deep_view();
            assert(line.deep_view() =~= line@);
            done.push(line);
            assert(done.deep_view() =~= before.push(line@));
            cur = Vec::new();
        } else {
            cur.push(c);
        }
    }
    assert(s@.take(s.len() as int) == s@);
    if cur.len() > 0 {
        let ghost before = done.deep_view();
        assert(cur.deep_view() =~= cur@);
        done.push(cur);
        assert(done.deep_view() =~= before.push(cur@));
    }
    done
}

/// Joins `ls` with `\n` between neighbours.
pub fn join_with_newlines(ls: &Vec<Vec<char>>) -> (s: Vec<char>)
    ensures
        s@ == join_lines(ls.deep_view()),
{
    let mut s: Vec<char> = Vec::new();
    for i in 0..ls.len()
        invariant
            s@ == join_lines(ls.deep_view().take(i as int)),
    {
        let ghost prev = ls.deep_view().take(i as int);
        assert(ls.deep_view().take(i + 1).drop_last() == prev);
        if i > 0 {
            s.push('\n');
        }
        let line = &ls[i];
        for j in 0..line.len()
            invariant
                i > 0 ==> s@ == join_lines(prev) + seq!['\n'] + line@.take(j as int),
                i == 0 ==> s@ == line@.take(j as int),
        {
            s.push(line[j]);
            assert(line@.take(j + 1) == line@.take(j as int).push(line@[j as int]));
        }
        assert(line@.take(line.len() as int) == line@);
    }
    assert(ls.deep_view().take(ls.len() as int) == ls.deep_view());
    s
}


/// Each of `ls` followed by `\n`, one after the other.
pub open spec fn terminated(ls: Seq<Seq<char>>) -> Seq<char>
    decreases ls.len(),
{
    if ls.len() == 0 {
        seq![]
    } else {
        terminated(ls.drop_last()) + ls.last() + seq!['\n']
    }
}

/// Joining with `\n` and adding a final `\n` ends every line with `\n`.
pub proof fn lemma_join_terminated(ls: Seq<Seq<char>>)
    requires
        ls.len() > 0,
    ensures
        join_lines(ls) + seq!['\n'] == terminated(ls),
    decreases ls.len(),
{
    if ls.len() > 1 {
        lemma_join_terminated(ls.drop_last());
        assert(join_lines(ls) + seq!['\n'] =~= (join_lines(ls.drop_last()) + seq!['\n']) + ls.last()
            + seq!['\n']);
    } else {
        assert(ls.drop_last() =~= Seq::<Seq<char>>::empty());
        assert(terminated(ls.drop_last()) =~= Seq::<char>::empty());
        assert(terminated(ls) =~= ls[0] + seq!['\n']);
    }
}

/// Reading characters without a `\n` only extends the unterminated tail.
pub proof fn lemma_scan_append_plain(a: Seq<char>, b: Seq<char>)
    requires
        forall|j: int| 0 <= j < b.len() ==> b[j] != '\n',
    ensures
        scan_lines(a + b) == (scan_lines(a).0, scan_lines(a).1 + b),
    decreases b.len(),
{
    if b.len() == 0 {
        assert(a + b =~= a);
        assert(scan_lines(a).1 + b =~= scan_lines(a).1);
    } else {
        let b0 = b.drop_last();
        lemma_scan_append_plain(a, b0);
        assert((a + b).drop_last() =~= a + b0);
        assert((a + b).last() == b.last());
        assert(scan_lines(a).1 + b =~= (scan_lines(a).1 + b0).push(b.last()));
    }
}

/// Reading lines each ended by `\n` yields exactly those lines (less the
/// `\r` of a `\r\n` ending) and no tail.
pub proof fn lemma_scan_terminated(ls: Seq<Seq<char>>)
    requires
        no_newlines(ls),
    ensures
        scan_lines(terminated(ls)) == (ls.map_values(|l: Seq<char>| strip_cr(l)), Seq::<char>::empty()),
    decreases ls.len(),
{
    if ls.len() == 0 {
        assert(ls.map_values(|l: Seq<char>| strip_cr(l)) =~= Seq::<Seq<char>>::empty());
    } else {
        let init = ls.drop_last();
        let l = ls.last();
        assert(no_newlines(init)) by {
            assert forall|i: int, j: int| 0 <= i < init.len() && 0 <= j < init[i].len() implies init[i][j]
                != '\n' by {
                assert(init[i] == ls[i]);
            }
        }
        lemma_scan_terminated(init);
        let a = terminated(init);
        assert forall|j: int| 0 <= j < l.len() implies l[j] != '\n' by {
            assert(l == ls[ls.len() - 1]);
        }
        lemma_scan_append_plain(a, l);
        assert(scan_lines(a).1 + l =~= l);
        let s = terminated(ls);
        assert(s =~= (a + l).push('\n'));
        assert(s.drop_last() =~= a + l);
        assert(ls.map_values(|l: Seq<char>| strip_cr(l)) =~= init.map_values(|l: Seq<char>| strip_cr(l)).push(
            strip_cr(l),
        ));
    }
}

/// The lines of `ls` each ended by `\n` read back as `ls` (less the `\r`
/// of a `\r\n` ending).
pub proof fn lemma_lines_terminated(ls: Seq<Seq<char>>)
    requires
        no_newlines(ls),
    ensures
        lines(terminated(ls)) == ls.map_values(|l: Seq<char>| strip_cr(l)),
{
    lemma_scan_terminated(ls);
}

/// No line that `scan_lines` or `lines` yields holds a `\n`.
pub proof fn lemma_lines_no_newlines(s: Seq<char>)
    ensures
        no_newlines(scan_lines(s).0),
        forall|j: int| 0 <= j < scan_lines(s).1.len() ==> scan_lines(s).1[j] != '\n',
        no_newlines(lines(s)),
    decreases s.len(),
{
    if s.len() > 0 {
        lemma_lines_no_newlines(s.drop_last());
    }
}

/// Number of trailing white-space characters of `s`.
pub open spec fn ws_suffix_len(s: Seq<char>) -> nat
    decreases s.len(),
{
    if s.len() > 0 && is_white_space(s.last()) {
        1 + ws_suffix_len(s.drop_last())
    } else {
        0
    }
}

/// `s` with its leading and trailing white space removed, as `str::trim`.
pub open spec fn trim(s: Seq<char>) -> Seq<char> {
    let t = trim_start(s);
    t.take(t.len() - ws_suffix_len(t))
}

/// The trailing white space is exactly the last `n` characters when those
/// are white space and the one before them is not (or `s` is all of them).
pub proof fn lemma_ws_suffix_len(s: Seq<char>, n: int)
    requires
        0 <= n <= s.len(),
        forall|j: int| s.len() - n <= j < s.len() ==> is_white_space(#[trigger] s[j]),
        n == s.len() || !is_white_space(s[s.len() - n - 1]),
    ensures
        ws_suffix_len(s) == n,
    decreases n,
{
    if n > 0 {
        let t = s.drop_last();
        assert forall|j: int| t.len() - (n - 1) <= j < t.len() implies is_white_space(#[trigger] t[j]) by {
            assert(t[j] == s[j]);
        }
        if n < s.len() {
            assert(t[t.len() - (n - 1) - 1] == s[s.len() - n - 1]);
        }
        assert(is_white_space(s[s.len() - 1]));
        lemma_ws_suffix_len(t, n - 1);
    } else if s.len() > 0 {
        assert(!is_white_space(s.last()));
    }
}

/// The bounds of `s` with its surrounding white space removed: `trim(s)`
/// is the range `[a, b)` of `s`.
pub fn trim_bounds(s: &Vec<char>) -> (ab: (usize, usize))
    ensures
        ab.0 <= ab.1 <= s.len(),
        s@.subrange(ab.0 as int, ab.1 as int) == trim(s@),
{
    let a = leading_white_space(s);
    let mut b = s.len();
    while b > a && white_space(s[b - 1])
        invariant
            a <= b <= s.len(),
            a == ws_prefix_len(s@),
            forall|j: int| b <= j < s.len() ==> is_white_space(#[trigger] s@[j]),
        decreases b,
    {
        b = b - 1;
    }
    proof {
        let t = trim_start(s@);
        lemma_ws_prefix_len_bound(s@);
        assert forall|j: int| t.len() - (s.len() - b) <= j < t.len() implies is_white_space(#[trigger] t[j]) by {
            assert(t[j] == s@[j + a]);
        }
        if b > a {
            assert(t[t.len() - (s.len() - b) - 1] == s@[b - 1]);
        }
        lemma_ws_suffix_len(t, s.len() - b);
        assert(s@.subrange(a as int, b as int) =~= t.take(t.len() - ws_suffix_len(t)));
    }
    (a, b)
}


/// `s` with its leading and trailing white space removed.
pub fn trimmed(s: &str) -> (r: String)
    ensures
        r@ == trim(s@),
{
    let chars = chars_of(s);
    let (a, b) = trim_bounds(&chars);
    let mut out: Vec<char> = Vec::new();
    for i in a..b
        invariant
            a <= b <= chars.len(),
            out@ == chars@.subrange(a as int, i as int),
    {
        out.push(chars[i]);
        assert(chars@.subrange(a as int, i + 1) == chars@.subrange(a as int, i as int).push(chars@[i as int]));
    }
    string_of(&out)
}

/// The concatenation of `a`, `b` and `c`.
pub fn concat3(a: &str, b: &str, c: &str) -> (r: String)
    ensures
        r@ == a@ + b@ + c@,
{
    let mut r = String::from_str(a);
    r.append(b);
    r.append(c);
    r
}


// ---------------------------------------------------------------------------
// Lines with their endings
// ---------------------------------------------------------------------------

/// Reading `s` from the left: the lines ended by a `\n` so far, each with
/// its own ending (`\n` or `\r\n`) kept, and the characters after the last `\n`.
pub open spec fn raw_scan(s: Seq<char>) -> (Seq<Seq<char>>, Seq<char>)
    decreases s.len(),
{
    if s.len() == 0 {
        (seq![], seq![])
    } else {
        let (done, cur) = raw_scan(s.drop_last());
        if s.last() == '\n' {
            (done.push(cur.push('\n')), seq![])
        } else {
            (done, cur.push(s.last()))
        }
    }
}

/// The lines of `s`, each with its own ending kept: split after every `\n`;
/// the last one has no ending when `s` does not end with `\n`.
pub open spec fn raw_lines(s: Seq<char>) -> Seq<Seq<char>> {
    let (done, cur) = raw_scan(s);
    if cur.len() == 0 {
        done
    } else {
        done.push(cur)
    }
}

/// The text of a line with its ending (`\n` or `\r\n`) removed, as
/// `str::lines` yields it.
pub open spec fn line_of(p: Seq<char>) -> Seq<char> {
    if p.len() > 0 && p.last() == '\n' {
        strip_cr(p.drop_last())
    } else {
        p
    }
}

/// `p` ended by `\n`: itself when it already is, else with a `\n` added.
pub open spec fn terminate(p: Seq<char>) -> Seq<char> {
    if p.len() > 0 && p.last() == '\n' {
        p
    } else {
        p.push('\n')
    }
}

/// The pieces `ps` one after the other.
pub open spec fn concat(ps: Seq<Seq<char>>) -> Seq<char>
    decreases ps.len(),
{
    if ps.len() == 0 {
        seq![]
    } else {
        concat(ps.drop_last()) + ps.last()
    }
}

/// A line with its ending: not empty, and a `\n` only as its last character.
pub open spec fn is_piece(p: Seq<char>) -> bool {
    &&& p.len() > 0
    &&& forall|j: int| 0 <= j < p.len() - 1 ==> p[j] != '\n'
}

/// A line with its ending, ended by `\n`.
pub open spec fn is_ended_piece(p: Seq<char>) -> bool {
    is_piece(p) && p.last() == '\n'
}

/// Every line but the last is ended by `\n`.
pub open spec fn ended_but_last(ps: Seq<Seq<char>>) -> bool {
    forall|i: int| 0 <= i < ps.len() - 1 ==> #[trigger] ps[i].len() > 0 && ps[i].last() == '\n'
}

/// Splits `s` into its lines, each with its own ending kept.
pub fn split_raw_lines(s: &Vec<char>) -> (ps: Vec<Vec<char>>)
    ensures
        ps.deep_view() == raw_lines(s@),
{
    let mut done: Vec<Vec<char>> = Vec::new();
    let mut cur: Vec<char> = Vec::new();
    for i in 0..s.len()
        invariant
            (done.deep_view(), cur@) == raw_scan(s@.take(i as int)),
    {
        let c = s[i];
        assert(s@.take(i + 1).drop_last() == s@.take(i as int));
        cur.push(c);
        if c == '\n' {
            let piece = cur;
            let ghost before = done.deep_view();
            assert(piece.deep_view() =~= piece@);
            done.push(piece);
            assert(done.deep_view() =~= before.push(piece@));
            cur = Vec::new();
        }
    }
    assert(s@.take(s.len() as int) == s@);
    if cur.len() > 0 {
        let ghost before = done.deep_view();
        assert(cur.deep_view() =~= cur@);
        done.push(cur);
        assert(done.deep_view() =~= before.push(cur@));
    }
    done
}

/// The text of the line `p`, its ending removed.
pub fn line_text(p: &Vec<char>) -> (l: Vec<char>)
    ensures
        l@ == line_of(p@),
{
    let mut l = p.clone();
    assert(l@ == p@);
    let n = l.len();
    if n > 0 && l[n - 1] == '\n' {
        l.pop();
        let m = l.len();
        if m > 0 && l[m - 1] == '\r' {
            l.pop();
        }
    }
    l
}

/// The lines of `s` as `str::lines` yields them are its lines with their
/// endings removed.
pub proof fn lemma_lines_of_raw_lines(s: Seq<char>)
    ensures
        scan_lines(s) == (raw_scan(s).0.map_values(|p: Seq<char>| line_of(p)), raw_scan(s).1),
        lines(s) == raw_lines(s).map_values(|p: Seq<char>| line_of(p)),
    decreases s.len(),
{
    let f = |p: Seq<char>| line_of(p);
    if s.len() == 0 {
        assert(raw_scan(s).0.map_values(f) =~= Seq::<Seq<char>>::empty());
    } else {
        lemma_lines_of_raw_lines(s.drop_last());
        let (done, cur) = raw_scan(s.drop_last());
        if s.last() == '\n' {
            assert(cur.push('\n').drop_last() =~= cur);
            assert(done.push(cur.push('\n')).map_values(f) =~= done.map_values(f).push(strip_cr(cur)));
        }
    }
    let (done, cur) = raw_scan(s);
    if cur.len() > 0 {
        lemma_raw_scan_tail(s);
        assert(line_of(cur) == cur);
        assert(done.push(cur).map_values(f) =~= done.map_values(f).push(cur));
    }
}

/// The shape of what `raw_scan` yields: ended pieces, and a tail without `\n`.
pub proof fn lemma_raw_scan_tail(s: Seq<char>)
    ensures
        forall|i: int| 0 <= i < raw_scan(s).0.len() ==> is_ended_piece(#[trigger] raw_scan(s).0[i]),
        forall|j: int| 0 <= j < raw_scan(s).1.len() ==> raw_scan(s).1[j] != '\n',
    decreases s.len(),
{
    if s.len() > 0 {
        lemma_raw_scan_tail(s.drop_last());
        let (done, cur) = raw_scan(s.drop_last());
        if s.last() == '\n' {
            let p = cur.push('\n');
            assert(is_ended_piece(p)) by {
                assert forall|j: int| 0 <= j < p.len() - 1 implies p[j] != '\n' by {
                    assert(p[j] == cur[j]);
                }
            }
            assert forall|i: int| 0 <= i < done.push(p).len() implies is_ended_piece(
                #[trigger] done.push(p)[i],
            ) by {
                if i < done.len() {
                    assert(done.push(p)[i] == done[i]);
                }
            }
        } else {
            let c = cur.push(s.last());
            assert forall|j: int| 0 <= j < c.len() implies c[j] != '\n' by {
                if j < cur.len() {
                    assert(c[j] == cur[j]);
                }
            }
        }
    }
}

/// The lines of `s` with their endings: each is a piece, all but the last
/// ended by `\n`, and together they make up `s`.
pub proof fn lemma_raw_lines_shape(s: Seq<char>)
    ensures
        forall|i: int| 0 <= i < raw_lines(s).len() ==> is_piece(#[trigger] raw_lines(s)[i]),
        ended_but_last(raw_lines(s)),
        concat(raw_lines(s)) == s,
{
    lemma_raw_scan_tail(s);
    lemma_raw_scan_concat(s);
    let (done, cur) = raw_scan(s);
    let ps = raw_lines(s);
    assert forall|i: int| 0 <= i < ps.len() implies is_piece(#[trigger] ps[i]) by {
        if i < done.len() {
            assert(ps[i] == done[i]);
            assert(is_ended_piece(done[i]));
        } else {
            assert(ps[i] == cur);
        }
    }
    assert forall|i: int| 0 <= i < ps.len() - 1 implies #[trigger] ps[i].len() > 0 && ps[i].last() == '\n' by {
        assert(ps[i] == done[i]);
        assert(is_ended_piece(done[i]));
    }
    if cur.len() > 0 {
        assert(done.push(cur).drop_last() =~= done);
    }
}

/// The pieces that `raw_scan` yields, and its tail, make up the text.
proof fn lemma_raw_scan_concat(s: Seq<char>)
    ensures
        concat(raw_scan(s).0) + raw_scan(s).1 == s,
    decreases s.len(),
{
    if s.len() == 0 {
        assert(concat(raw_scan(s).0) + raw_scan(s).1 =~= s);
    } else {
        lemma_raw_scan_concat(s.drop_last());
        let (done, cur) = raw_scan(s.drop_last());
        if s.last() == '\n' {
            assert(done.push(cur.push('\n')).drop_last() =~= done);
            assert(concat(done.push(cur.push('\n'))) + seq![] =~= (concat(done) + cur).push('\n'));
        } else {
            assert(concat(done) + cur.push(s.last()) =~= (concat(done) + cur).push(s.last()));
        }
        assert(s =~= s.drop_last().push(s.last()));
    }
}

/// Reading characters without a `\n` only extends the tail.
proof fn lemma_raw_scan_append_plain(a: Seq<char>, b: Seq<char>)
    requires
        forall|j: int| 0 <= j < b.len() ==> b[j] != '\n',
    ensures
        raw_scan(a + b) == (raw_scan(a).0, raw_scan(a).1 + b),
    decreases b.len(),
{
    if b.len() == 0 {
        assert(a + b =~= a);
        assert(raw_scan(a).1 + b =~= raw_scan(a).1);
    } else {
        let b0 = b.drop_last();
        lemma_raw_scan_append_plain(a, b0);
        assert((a + b).drop_last() =~= a + b0);
        assert((a + b).last() == b.last());
        assert(raw_scan(a).1 + b =~= (raw_scan(a).1 + b0).push(b.last()));
    }
}

/// Lines that each end with `\n` read back as themselves.
pub proof fn lemma_raw_lines_concat(ps: Seq<Seq<char>>)
    requires
        forall|i: int| 0 <= i < ps.len() ==> is_ended_piece(#[trigger] ps[i]),
    ensures
        raw_scan(concat(ps)) == (ps, Seq::<char>::empty()),
        raw_lines(concat(ps)) == ps,
    decreases ps.len(),
{
    if ps.len() == 0 {
        assert(raw_scan(concat(ps)) == (ps, Seq::<char>::empty())) by {
            assert(ps =~= Seq::<Seq<char>>::empty());
        }
    } else {
        let init = ps.drop_last();
        let p = ps.last();
        assert(is_ended_piece(ps[ps.len() - 1]));
        assert forall|i: int| 0 <= i < init.len() implies is_ended_piece(#[trigger] init[i]) by {
            assert(init[i] == ps[i]);
        }
        lemma_raw_lines_concat(init);
        let a = concat(init);
        let q = p.drop_last();
        assert forall|j: int| 0 <= j < q.len() implies q[j] != '\n' by {
            assert(q[j] == p[j]);
        }
        lemma_raw_scan_append_plain(a, q);
        assert(raw_scan(a).1 + q =~= q);
        assert(concat(ps) =~= (a + q).push('\n'));
        assert(concat(ps).drop_last() =~= a + q);
        assert(q.push('\n') =~= p);
        assert(init.push(p) =~= ps);
    }
}

/// Ending the last of `ps` with `\n` (when it is not already) is ending
/// every piece so, when all but the last already are.
pub proof fn lemma_concat_terminate(ps: Seq<Seq<char>>)
    requires
        ps.len() > 0,
        ended_but_last(ps),
        ps.last().len() > 0,
    ensures
        terminate(concat(ps)) == concat(ps.map_values(|p: Seq<char>| terminate(p))),
{
    let f = |p: Seq<char>| terminate(p);
    let init = ps.drop_last();
    assert(init.map_values(f) =~= init) by {
        assert forall|i: int| 0 <= i < init.len() implies init.map_values(f)[i] == init[i] by {
            assert(init[i] == ps[i]);
            assert(ps[i].len() > 0 && ps[i].last() == '\n');
        }
    }
    assert(ps.map_values(f).drop_last() =~= init.map_values(f));
    assert(ps.map_values(f).last() == terminate(ps.last()));
    let c = concat(ps);
    assert(c == concat(init) + ps.last());
    assert(c.last() == ps.last().last());
    if ps.last().last() != '\n' {
        assert(c.push('\n') =~= concat(init) + ps.last().push('\n'));
    }
}


/// The pieces `ps` one after the other.
pub fn concat_pieces(ps: &Vec<Vec<char>>) -> (s: Vec<char>)
    ensures
        s@ == concat(ps.deep_view()),
{
    let mut s: Vec<char> = Vec::new();
    for i in 0..ps.len()
        invariant
            s@ == concat(ps.deep_view().take(i as int)),
    {
        assert(ps.deep_view().take(i + 1).drop_last() == ps.deep_view().take(i as int));
        assert(ps.deep_view()[i as int] == ps[i as int]@);
        let p = &ps[i];
        let ghost start = s@;
        for j in 0..p.len()
            invariant
                s@ == start + p@.take(j as int),
        {
            s.push(p[j]);
            assert(p@.take(j + 1) == p@.take(j as int).push(p@[j as int]));
        }
        assert(p@.take(p.len() as int) == p@);
    }
    assert(ps.deep_view().take(ps.len() as int) == ps.deep_view());
    s
}

} // verus!

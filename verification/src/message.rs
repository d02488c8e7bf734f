use vstd::prelude::*;

use crate::text::{
    ascii_lower, blank, chars_of, concat, concat_pieces, ended_but_last, is_blank, is_ended_piece,
    is_piece, is_white_space, join_lines, join_with_newlines, leading_white_space, lemma_concat_terminate,
    lemma_join_terminated, lemma_lines_no_newlines, lemma_lines_of_raw_lines, lemma_lines_terminated,
    lemma_raw_lines_concat, lemma_raw_lines_shape, lemma_ws_prefix_len, lemma_ws_prefix_len_bound,
    line_of, line_text, lines, raw_lines, scan_lines, split_lines, split_raw_lines, string_of,
    strip_cr, terminate, trim_start, ws_prefix_len,
};

verus! {

/// Why a commit message cannot be cleaned.
#[derive(Debug, PartialEq, Eq)]
pub enum StripError {
    /// Nothing but white space would remain once the co-author lines are gone.
    EmptyMessage,
}

impl StripError {
    /// The human-readable description of the error.
    pub fn message(&self) -> (s: String)
        ensures
            s@ == "commit message would be empty after stripping co-author lines"@,
    {
        match self {
            StripError::EmptyMessage => String::from_str(
                "commit message would be empty after stripping co-author lines",
            ),
        }
    }
}

/// `co-authored-by:`, the prefix that marks a co-author trailer.
pub open spec fn coauthor_tag() -> Seq<char> {
    seq!['c', 'o', '-', 'a', 'u', 't', 'h', 'o', 'r', 'e', 'd', '-', 'b', 'y', ':']
}

/// A co-author trailer: once its leading white space is gone and it is
/// lower-cased (ASCII only), the line starts with `co-authored-by:`.
pub open spec fn is_coauthor_line(l: Seq<char>) -> bool {
    let t = trim_start(l);
    &&& t.len() >= coauthor_tag().len()
    &&& forall|i: int| 0 <= i < coauthor_tag().len() ==> ascii_lower(#[trigger] t[i]) == coauthor_tag()[i]
}

/// Whether `c`, lower-cased, is `t`.
fn lower_matches(c: char, t: char) -> (r: bool)
    ensures
        r == (ascii_lower(c) == t),
{
    let cu = c as u32;
    if 65 <= cu && cu <= 90 {
        proof {
            assert(('A' <= c && c <= 'Z'));
        }
        cu + 32 == t as u32
    } else {
        c == t
    }
}


/// Whether `l` is a co-author trailer.
fn coauthor_line(l: &Vec<char>) -> (r: bool)
    ensures
        r == is_coauthor_line(l@),
{
    let tag: Vec<char> = vec!['c', 'o', '-', 'a', 'u', 't', 'h', 'o', 'r', 'e', 'd', '-', 'b', 'y', ':'];
    assert(tag@ == coauthor_tag());
    let n = leading_white_space(l);
    let ghost t = trim_start(l@);
    if l.len() - n < tag.len() {
        return false;
    }
    for i in 0..tag.len()
        invariant
            n == ws_prefix_len(l@),
            n + tag.len() <= l.len(),
            tag@ == coauthor_tag(),
            t == trim_start(l@),
            forall|j: int| 0 <= j < i ==> ascii_lower(#[trigger] t[j]) == coauthor_tag()[j],
    {
        assert(t[i as int] == l@[n + i]);
        if !lower_matches(l[n + i], tag[i]) {
            return false;
        }
    }
    true
}

/// The lines of `ps` (each with its ending) that are not co-author
/// trailers, in order.
pub open spec fn without_coauthors(ps: Seq<Seq<char>>) -> Seq<Seq<char>>
    decreases ps.len(),
{
    if ps.len() == 0 {
        seq![]
    } else if is_coauthor_line(line_of(ps.last())) {
        without_coauthors(ps.drop_last())
    } else {
        without_coauthors(ps.drop_last()).push(ps.last())
    }
}

/// How many lines of `ps` are co-author trailers.
pub open spec fn coauthor_count(ps: Seq<Seq<char>>) -> nat
    decreases ps.len(),
{
    if ps.len() == 0 {
        0
    } else if is_coauthor_line(line_of(ps.last())) {
        coauthor_count(ps.drop_last()) + 1
    } else {
        coauthor_count(ps.drop_last())
    }
}

/// `ps` without the blank lines at its end.
pub open spec fn drop_trailing_blank(ps: Seq<Seq<char>>) -> Seq<Seq<char>>
    decreases ps.len(),
{
    if ps.len() > 0 && is_blank(line_of(ps.last())) {
        drop_trailing_blank(ps.drop_last())
    } else {
        ps
    }
}

/// The lines of `msg`, each with its own ending, that remain once the
/// co-author trailers and then the trailing blank lines are gone.
pub open spec fn stripped_lines(msg: Seq<char>) -> Seq<Seq<char>> {
    drop_trailing_blank(without_coauthors(raw_lines(msg)))
}

/// How many lines of `msg` are co-author trailers.
pub open spec fn removed_count(msg: Seq<char>) -> nat {
    coauthor_count(raw_lines(msg))
}

/// The cleaned message: `msg` itself when it holds no co-author trailer;
/// else the remaining lines, each with its own ending, and a final `\n`
/// when the last of them had none.
pub open spec fn stripped_message(msg: Seq<char>) -> Seq<char> {
    if removed_count(msg) == 0 {
        msg
    } else {
        terminate(concat(stripped_lines(msg)))
    }
}

/// Strip all `Co-authored-by` lines (case-insensitive, after leading white
/// space) from a commit message. Returns the cleaned message and the number
/// of removed lines. A message without such a line comes back unchanged;
/// otherwise the remaining lines keep their own endings and trailing blank
/// lines are collapsed. Errors if nothing but white space would remain.
pub fn strip_coauthors(msg: &str) -> (r: Result<(String, usize), StripError>)
    ensures
        match r {
            Ok((cleaned, removed)) => {
                &&& stripped_lines(msg@).len() > 0
                &&& cleaned@ == stripped_message(msg@)
                &&& removed == removed_count(msg@)
            },
            Err(e) => e == StripError::EmptyMessage && stripped_lines(msg@).len() == 0,
        },
{
    let chars = chars_of(msg);
    let all = split_raw_lines(&chars);
    let mut kept: Vec<Vec<char>> = Vec::new();
    let mut removed: usize = 0;
    for i in 0..all.len()
        invariant
            all.deep_view() == raw_lines(msg@),
            kept.deep_view() == without_coauthors(all.deep_view().take(i as int)),
            removed == coauthor_count(all.deep_view().take(i as int)),
            removed <= i,
    {
        let ghost prev = all.deep_view().take(i as int);
        assert(all.deep_view().take(i + 1).drop_last() == prev);
        assert(all.deep_view()[i as int] == all[i as int]@);
        let text = line_text(&all[i]);
        if coauthor_line(&text) {
            removed = removed + 1;
        } else {
            let line = all[i].clone();
            let ghost before = kept.deep_view();
            assert(line.deep_view() =~= line@);
            kept.push(line);
            assert(kept.deep_view() =~= before.push(all[i as int]@));
        }
    }
    assert(all.deep_view().take(all.len() as int) == all.deep_view());
    let ghost filtered = kept.deep_view();
    while kept.len() > 0 && blank(&line_text(&kept[kept.len() - 1]))
        invariant
            drop_trailing_blank(kept.deep_view()) == drop_trailing_blank(filtered),
        decreases kept.len(),
    {
        let ghost before = kept.deep_view();
        assert(before.last() == kept[kept.len() - 1]@);
        kept.pop();
        assert(kept.deep_view() =~= before.drop_last());
    }
    if kept.len() == 0 {
        return Err(StripError::EmptyMessage);
    }
    assert(kept.deep_view().last() == kept[kept.len() - 1]@);
    if removed == 0 {
        return Ok((String::from_str(msg), 0));
    }
    let mut out = concat_pieces(&kept);
    let n = out.len();
    if n == 0 || out[n - 1] != '\n' {
        out.push('\n');
    }
    Ok((string_of(&out), removed))
}

/// `pick ` at the start of a rebase todo line.
pub open spec fn pick_word() -> Seq<char> {
    seq!['p', 'i', 'c', 'k', ' ']
}

/// `reword ` as it replaces `pick ` in a rebase todo line.
pub open spec fn reword_word() -> Seq<char> {
    seq!['r', 'e', 'w', 'o', 'r', 'd', ' ']
}

/// One line of a rebase todo list after rewriting: a line whose text after
/// its leading white space starts with `pick ` keeps that white space and
/// the rest of the line, with `pick ` replaced by `reword `; any other line
/// is unchanged.
pub open spec fn rewrite_todo_line(l: Seq<char>) -> Seq<char> {
    let n = ws_prefix_len(l) as int;
    let t = l.skip(n);
    if t.len() >= pick_word().len() && t.take(pick_word().len() as int) == pick_word() {
        l.take(n) + reword_word() + t.skip(pick_word().len() as int)
    } else {
        l
    }
}

/// The rewritten todo list: every line rewritten, joined with `\n`, and a
/// final `\n`.
pub open spec fn rewritten_todo(contents: Seq<char>) -> Seq<char> {
    join_lines(lines(contents).map_values(|l: Seq<char>| rewrite_todo_line(l))) + seq!['\n']
}

/// Rewrites one line of a rebase todo list.
fn rewrite_line(l: &Vec<char>) -> (r: Vec<char>)
    ensures
        r@ == rewrite_todo_line(l@),
{
    let pick: Vec<char> = vec!['p', 'i', 'c', 'k', ' '];
    let reword: Vec<char> = vec!['r', 'e', 'w', 'o', 'r', 'd', ' '];
    assert(pick@ == pick_word());
    assert(reword@ == reword_word());
    let n = leading_white_space(l);
    let ghost t = l@.skip(n as int);
    let mut is_pick = l.len() - n >= pick.len();
    let mut i: usize = 0;
    while is_pick && i < pick.len()
        invariant
            n == ws_prefix_len(l@),
            n <= l.len(),
            t == l@.skip(n as int),
            pick@ == pick_word(),
            i <= pick.len(),
            is_pick ==> n + pick.len() <= l.len(),
            is_pick ==> forall|j: int| 0 <= j < i ==> t[j] == pick_word()[j],
            !is_pick ==> !(t.len() >= pick_word().len() && t.take(pick_word().len() as int) == pick_word()),
        decreases pick.len() - i + (if is_pick { 1int } else { 0int }),
    {
        if l[n + i] != pick[i] {
            assert(t.take(pick_word().len() as int)[i as int] == t[i as int]);
            is_pick = false;
        } else {
            i = i + 1;
        }
    }
    if !is_pick {
        return l.clone();
    }
    assert(t.take(pick_word().len() as int) =~= pick_word());
    let mut r: Vec<char> = Vec::new();
    for j in 0..n
        invariant
            n <= l.len(),
            r@ == l@.take(j as int),
    {
        r.push(l[j]);
        assert(l@.take(j + 1) == l@.take(j as int).push(l@[j as int]));
    }
    for j in 0..reword.len()
        invariant
            r@ == l@.take(n as int) + reword@.take(j as int),
    {
        r.push(reword[j]);
        assert(reword@.take(j + 1) == reword@.take(j as int).push(reword@[j as int]));
    }
    assert(reword@.take(reword.len() as int) == reword@);
    let start = n + pick.len();
    for j in start..l.len()
        invariant
            start == n + pick_word().len(),
            start <= l.len(),
            r@ == l@.take(n as int) + reword_word() + l@.subrange(start as int, j as int),
    {
        r.push(l[j]);
        assert(l@.subrange(start as int, j + 1) == l@.subrange(start as int, j as int).push(l@[j as int]));
    }
    assert(l@.subrange(start as int, l.len() as int) == t.skip(pick_word().len() as int));
    r
}

/// Rewrite a rebase todo file, replacing `pick` with `reword`.
pub fn rewrite_todo(contents: &str) -> (r: String)
    ensures
        r@ == rewritten_todo(contents@),
{
    let chars = chars_of(contents);
    let all = split_lines(&chars);
    let mut out_lines: Vec<Vec<char>> = Vec::new();
    for i in 0..all.len()
        invariant
            all.deep_view() == lines(contents@),
            out_lines.deep_view() == all.deep_view().take(i as int).map_values(
                |l: Seq<char>| rewrite_todo_line(l),
            ),
    {
        let line = rewrite_line(&all[i]);
        let ghost before = out_lines.deep_view();
        assert(line.deep_view() =~= line@);
        out_lines.push(line);
        assert(all.deep_view()[i as int] == all[i as int]@);
        let ghost f = |l: Seq<char>| rewrite_todo_line(l);
        assert(out_lines.deep_view() =~= before.push(f(all.deep_view()[i as int])));
        assert(all.deep_view().take(i + 1).map_values(f) =~= all.deep_view().take(
            i as int,
        ).map_values(f).push(f(all.deep_view()[i as int])));
    }
    assert(all.deep_view().take(all.len() as int) == all.deep_view());
    let mut out = join_with_newlines(&out_lines);
    out.push('\n');
    string_of(&out)
}


// ---------------------------------------------------------------------------
// Laws
// ---------------------------------------------------------------------------

/// `l` ends with a carriage return.
pub open spec fn ends_with_cr(l: Seq<char>) -> bool {
    l.len() > 0 && l.last() == '\r'
}

/// Dropping a final `\r` cannot turn a line into a co-author trailer.
proof fn lemma_strip_cr_keeps_plain(l: Seq<char>)
    requires
        !is_coauthor_line(l),
    ensures
        !is_coauthor_line(strip_cr(l)),
{
    if ends_with_cr(l) && is_coauthor_line(l.drop_last()) {
        let p = l.drop_last();
        let n = ws_prefix_len(p) as int;
        lemma_ws_prefix_len_bound(p);
        let t = p.skip(n);
        assert(ascii_lower(t[0]) == coauthor_tag()[0]);
        assert(t[0] == p[n]);
        assert(!is_white_space(p[n]));
        assert forall|j: int| 0 <= j < n implies is_white_space(#[trigger] l[j]) by {
            assert(l[j] == p[j]);
        }
        assert(l[n] == p[n]);
        lemma_ws_prefix_len(l, n);
        let u = l.skip(n);
        assert forall|i: int| 0 <= i < coauthor_tag().len() implies ascii_lower(#[trigger] u[i])
            == coauthor_tag()[i] by {
            assert(u[i] == t[i]);
        }
    }
}

/// Every line of `ps` is ended by `\n`.
pub open spec fn all_ended(ps: Seq<Seq<char>>) -> bool {
    forall|i: int| 0 <= i < ps.len() ==> #[trigger] ps[i].len() > 0 && ps[i].last() == '\n'
}

/// Every element of `ps` is a line with its ending.
pub open spec fn all_pieces(ps: Seq<Seq<char>>) -> bool {
    forall|i: int| 0 <= i < ps.len() ==> is_piece(#[trigger] ps[i])
}

/// No line of `ps` is a co-author trailer.
pub open spec fn no_coauthor_piece(ps: Seq<Seq<char>>) -> bool {
    forall|i: int| 0 <= i < ps.len() ==> !is_coauthor_line(line_of(#[trigger] ps[i]))
}

/// What filtering out the co-author trailers keeps.
proof fn lemma_without_coauthors(ps: Seq<Seq<char>>)
    ensures
        no_coauthor_piece(without_coauthors(ps)),
        all_pieces(ps) ==> all_pieces(without_coauthors(ps)),
        all_ended(ps) ==> all_ended(without_coauthors(ps)),
        ended_but_last(ps) ==> ended_but_last(without_coauthors(ps)),
        no_coauthor_piece(ps) ==> without_coauthors(ps) == ps,
        coauthor_count(ps) == 0 <==> no_coauthor_piece(ps),
    decreases ps.len(),
{
    if ps.len() > 0 {
        let init = ps.drop_last();
        let l = ps.last();
        lemma_without_coauthors(init);
        let w0 = without_coauthors(init);
        let w = without_coauthors(ps);
        assert(l == ps[ps.len() - 1]);
        assert forall|i: int| 0 <= i < w.len() implies !is_coauthor_line(line_of(#[trigger] w[i])) by {
            if i < w0.len() {
                assert(w[i] == w0[i]);
            }
        }
        if all_pieces(ps) {
            assert forall|i: int| 0 <= i < init.len() implies is_piece(#[trigger] init[i]) by {
                assert(init[i] == ps[i]);
            }
            assert forall|i: int| 0 <= i < w.len() implies is_piece(#[trigger] w[i]) by {
                if i < w0.len() {
                    assert(w[i] == w0[i]);
                }
            }
        }
        if ended_but_last(ps) {
            assert forall|i: int| 0 <= i < init.len() implies #[trigger] init[i].len() > 0
                && init[i].last() == '\n' by {
                assert(init[i] == ps[i]);
            }
            assert forall|i: int| 0 <= i < w.len() - 1 implies #[trigger] w[i].len() > 0 && w[i].last()
                == '\n' by {
                assert(w[i] == w0[i]);
            }
        }
        if all_ended(ps) {
            assert forall|i: int| 0 <= i < init.len() implies #[trigger] init[i].len() > 0
                && init[i].last() == '\n' by {
                assert(init[i] == ps[i]);
            }
            assert forall|i: int| 0 <= i < w.len() implies #[trigger] w[i].len() > 0 && w[i].last()
                == '\n' by {
                if i < w0.len() {
                    assert(w[i] == w0[i]);
                }
            }
        }
        if no_coauthor_piece(ps) {
            assert forall|i: int| 0 <= i < init.len() implies !is_coauthor_line(line_of(#[trigger] init[i])) by {
                assert(init[i] == ps[i]);
            }
            assert(init.push(l) =~= ps);
        }
        if coauthor_count(ps) == 0 {
            assert forall|i: int| 0 <= i < ps.len() implies !is_coauthor_line(line_of(#[trigger] ps[i])) by {
                if i < init.len() {
                    assert(ps[i] == init[i]);
                }
            }
        }
    }
}

/// Dropping trailing blank lines keeps a prefix whose last line is not
/// blank, and keeps something when some line is not blank.
proof fn lemma_drop_trailing_blank(ps: Seq<Seq<char>>)
    ensures
        drop_trailing_blank(ps).len() <= ps.len(),
        drop_trailing_blank(ps) == ps.take(drop_trailing_blank(ps).len() as int),
        drop_trailing_blank(ps).len() > 0 ==> !is_blank(line_of(drop_trailing_blank(ps).last())),
        ps.len() > 0 && !is_blank(line_of(ps.last())) ==> drop_trailing_blank(ps) == ps,
        (exists|i: int| 0 <= i < ps.len() && !is_blank(line_of(#[trigger] ps[i]))) ==> drop_trailing_blank(
            ps,
        ).len() > 0,
    decreases ps.len(),
{
    if ps.len() > 0 && is_blank(line_of(ps.last())) {
        let init = ps.drop_last();
        lemma_drop_trailing_blank(init);
        let d = drop_trailing_blank(init);
        assert(ps.take(d.len() as int) =~= init.take(d.len() as int));
        if exists|i: int| 0 <= i < ps.len() && !is_blank(line_of(#[trigger] ps[i])) {
            let i = choose|i: int| 0 <= i < ps.len() && !is_blank(line_of(#[trigger] ps[i]));
            assert(i != ps.len() - 1);
            assert(init[i] == ps[i]);
        }
    } else {
        assert(ps.take(ps.len() as int) =~= ps);
    }
}

/// What remains after cleaning: lines with their endings, none a co-author
/// trailer, all but the last ended by `\n`, the last not blank.
proof fn lemma_stripped_lines(msg: Seq<char>)
    ensures
        all_pieces(stripped_lines(msg)),
        no_coauthor_piece(stripped_lines(msg)),
        ended_but_last(stripped_lines(msg)),
        stripped_lines(msg).len() > 0 ==> !is_blank(line_of(stripped_lines(msg).last())),
{
    let w = without_coauthors(raw_lines(msg));
    lemma_raw_lines_shape(msg);
    lemma_without_coauthors(raw_lines(msg));
    lemma_drop_trailing_blank(w);
    let k = stripped_lines(msg);
    assert forall|i: int| 0 <= i < k.len() implies is_piece(#[trigger] k[i]) && !is_coauthor_line(
        line_of(k[i]),
    ) by {
        assert(k[i] == w[i]);
    }
    assert forall|i: int| 0 <= i < k.len() - 1 implies #[trigger] k[i].len() > 0 && k[i].last() == '\n' by {
        assert(k[i] == w[i]);
    }
}

/// Ending a line with `\n` keeps a line, and its text loses at most a final `\r`.
proof fn lemma_terminate_piece(p: Seq<char>)
    requires
        is_piece(p),
    ensures
        is_ended_piece(terminate(p)),
        line_of(terminate(p)) == line_of(p) || line_of(terminate(p)) == strip_cr(line_of(p)),
{
    if !(p.last() == '\n') {
        let t = p.push('\n');
        assert forall|j: int| 0 <= j < t.len() - 1 implies t[j] != '\n' by {
            assert(t[j] == p[j]);
        }
        assert(t.drop_last() =~= p);
    }
}

/// Dropping a final `\r` keeps a line that is not blank from becoming blank.
proof fn lemma_strip_cr_not_blank(l: Seq<char>)
    requires
        !is_blank(l),
    ensures
        !is_blank(strip_cr(l)),
{
    let j = choose|j: int| 0 <= j < l.len() && !is_white_space(#[trigger] l[j]);
    if ends_with_cr(l) {
        assert(j != l.len() - 1);
        assert(strip_cr(l)[j] == l[j]);
    }
}

/// A line whose text is blank is blank with its ending too.
proof fn lemma_piece_blank(p: Seq<char>)
    requires
        is_blank(line_of(p)),
    ensures
        is_blank(p),
{
    if p.len() > 0 && p.last() == '\n' {
        let q = p.drop_last();
        assert forall|j: int| 0 <= j < p.len() implies is_white_space(#[trigger] p[j]) by {
            if j < strip_cr(q).len() {
                assert(p[j] == strip_cr(q)[j]);
            }
        }
    }
}

/// Lines whose texts are all blank make up a blank text.
proof fn lemma_concat_blank(ps: Seq<Seq<char>>)
    requires
        forall|i: int| 0 <= i < ps.len() ==> is_blank(line_of(#[trigger] ps[i])),
    ensures
        is_blank(concat(ps)),
    decreases ps.len(),
{
    if ps.len() > 0 {
        let init = ps.drop_last();
        assert forall|i: int| 0 <= i < init.len() implies is_blank(line_of(#[trigger] init[i])) by {
            assert(init[i] == ps[i]);
        }
        lemma_concat_blank(init);
        assert(is_blank(line_of(ps[ps.len() - 1])));
        lemma_piece_blank(ps.last());
        let c = concat(ps);
        assert forall|j: int| 0 <= j < c.len() implies is_white_space(#[trigger] c[j]) by {
            if j < concat(init).len() {
                assert(c[j] == concat(init)[j]);
            } else {
                assert(c[j] == ps.last()[j - concat(init).len()]);
            }
        }
    }
}

/// Reading back a message that lost co-author lines: its lines, each with
/// its own ending, are the remaining lines with their own endings (the
/// last ended by `\n` when it had no ending).
pub proof fn law_cleaned_lines(msg: Seq<char>)
    requires
        stripped_lines(msg).len() > 0,
        removed_count(msg) > 0,
    ensures
        raw_lines(stripped_message(msg)) == stripped_lines(msg).map_values(|p: Seq<char>| terminate(p)),
{
    lemma_stripped_lines(msg);
    let k = stripped_lines(msg);
    let t = k.map_values(|p: Seq<char>| terminate(p));
    assert(is_piece(k[k.len() - 1]));
    lemma_concat_terminate(k);
    assert forall|i: int| 0 <= i < t.len() implies is_ended_piece(#[trigger] t[i]) by {
        lemma_terminate_piece(k[i]);
    }
    lemma_raw_lines_concat(t);
}

/// No co-author trailer survives cleaning: no line of a cleaned message is
/// one, so cleaning it again removes nothing.
pub proof fn law_no_coauthor_remains(msg: Seq<char>)
    requires
        stripped_lines(msg).len() > 0,
    ensures
        forall|i: int|
            0 <= i < lines(stripped_message(msg)).len() ==> !is_coauthor_line(
                #[trigger] lines(stripped_message(msg))[i],
            ),
        removed_count(stripped_message(msg)) == 0,
{
    let s = stripped_message(msg);
    lemma_lines_of_raw_lines(s);
    if removed_count(msg) > 0 {
        law_cleaned_lines(msg);
        lemma_stripped_lines(msg);
        let k = stripped_lines(msg);
        let t = raw_lines(s);
        assert forall|i: int| 0 <= i < t.len() implies !is_coauthor_line(line_of(#[trigger] t[i])) by {
            assert(t[i] == terminate(k[i]));
            lemma_terminate_piece(k[i]);
            lemma_strip_cr_keeps_plain(line_of(k[i]));
        }
        lemma_without_coauthors(t);
    } else {
        lemma_without_coauthors(raw_lines(msg));
    }
    let ls = lines(s);
    assert forall|i: int| 0 <= i < ls.len() implies !is_coauthor_line(#[trigger] ls[i]) by {
        assert(ls[i] == line_of(raw_lines(s)[i]));
    }
}

/// Cleaning is idempotent: cleaning a cleaned message succeeds, removes
/// nothing and gives it back unchanged.
pub proof fn law_strip_idempotent(msg: Seq<char>)
    requires
        stripped_lines(msg).len() > 0,
    ensures
        stripped_lines(stripped_message(msg)).len() > 0,
        stripped_message(stripped_message(msg)) == stripped_message(msg),
        removed_count(stripped_message(msg)) == 0,
{
    law_no_coauthor_remains(msg);
    let s = stripped_message(msg);
    if removed_count(msg) > 0 {
        law_cleaned_lines(msg);
        lemma_stripped_lines(msg);
        let k = stripped_lines(msg);
        let t = raw_lines(s);
        lemma_without_coauthors(t);
        assert(is_piece(k[k.len() - 1]));
        lemma_terminate_piece(k.last());
        lemma_strip_cr_not_blank(line_of(k.last()));
        assert(t.last() == terminate(k.last()));
        lemma_drop_trailing_blank(t);
    }
}

/// A message that holds no co-author trailer and is not all white space
/// comes back unchanged, with nothing removed.
pub proof fn law_unchanged_without_coauthors(msg: Seq<char>)
    requires
        !is_blank(msg),
        forall|i: int| 0 <= i < lines(msg).len() ==> !is_coauthor_line(#[trigger] lines(msg)[i]),
    ensures
        stripped_lines(msg).len() > 0,
        stripped_message(msg) == msg,
        removed_count(msg) == 0,
{
    let ps = raw_lines(msg);
    lemma_lines_of_raw_lines(msg);
    lemma_raw_lines_shape(msg);
    assert forall|i: int| 0 <= i < ps.len() implies !is_coauthor_line(line_of(#[trigger] ps[i])) by {
        assert(lines(msg)[i] == line_of(ps[i]));
    }
    lemma_without_coauthors(ps);
    if forall|i: int| 0 <= i < ps.len() ==> is_blank(line_of(#[trigger] ps[i])) {
        lemma_concat_blank(ps);
    }
    lemma_drop_trailing_blank(ps);
}

/// Facts about rewriting one todo line.
proof fn lemma_rewrite_line(l: Seq<char>)
    requires
        forall|j: int| 0 <= j < l.len() ==> l[j] != '\n',
    ensures
        forall|j: int| 0 <= j < rewrite_todo_line(l).len() ==> rewrite_todo_line(l)[j] != '\n',
        !ends_with_cr(l) ==> !ends_with_cr(rewrite_todo_line(l)),
        rewrite_todo_line(rewrite_todo_line(l)) == rewrite_todo_line(l),
{
    let n = ws_prefix_len(l) as int;
    let t = l.skip(n);
    lemma_ws_prefix_len_bound(l);
    if t.len() >= pick_word().len() && t.take(pick_word().len() as int) == pick_word() {
        let r = rewrite_todo_line(l);
        let rest = t.skip(pick_word().len() as int);
        assert(r == l.take(n) + reword_word() + rest);
        assert forall|j: int| 0 <= j < r.len() implies r[j] != '\n' by {
            if j < n {
                assert(r[j] == l[j]);
            } else if j < n + 7 {
                assert(r[j] == reword_word()[j - n]);
            } else {
                assert(r[j] == l[j - 2]);
            }
        }
        if rest.len() > 0 {
            assert(r.last() == l.last());
        } else {
            assert(r.last() == ' ');
        }
        assert forall|j: int| 0 <= j < n implies is_white_space(#[trigger] r[j]) by {
            assert(r[j] == l[j]);
        }
        assert(r[n] == 'r');
        lemma_ws_prefix_len(r, n);
        let u = r.skip(n);
        assert(u.take(pick_word().len() as int)[0] == 'r');
        assert(u.take(pick_word().len() as int) != pick_word());
    }
}

/// Reading back a rewritten todo list: its lines are the input's lines,
/// each rewritten. (A line that ends with `\r` is read back without it,
/// so such lists are left out.)
pub proof fn law_rewritten_lines(contents: Seq<char>)
    requires
        lines(contents).len() > 0,
        forall|i: int| 0 <= i < lines(contents).len() ==> !ends_with_cr(#[trigger] lines(contents)[i]),
    ensures
        lines(rewritten_todo(contents)) == lines(contents).map_values(|l: Seq<char>| rewrite_todo_line(l)),
{
    let ls = lines(contents);
    let m = ls.map_values(|l: Seq<char>| rewrite_todo_line(l));
    lemma_lines_no_newlines(contents);
    assert forall|i: int| 0 <= i < m.len() implies !ends_with_cr(#[trigger] m[i]) && forall|j: int|
        0 <= j < m[i].len() ==> m[i][j] != '\n' by {
        assert forall|j: int| 0 <= j < ls[i].len() implies ls[i][j] != '\n' by {}
        lemma_rewrite_line(ls[i]);
    }
    lemma_join_terminated(m);
    lemma_lines_terminated(m);
    assert(m.map_values(|l: Seq<char>| strip_cr(l)) =~= m);
}

/// Rewriting a todo list a second time changes nothing: no `pick ` line is
/// left. (A line that ends with `\r` is read back without it, so such
/// lists are left out.)
pub proof fn law_rewrite_todo_idempotent(contents: Seq<char>)
    requires
        forall|i: int| 0 <= i < lines(contents).len() ==> !ends_with_cr(#[trigger] lines(contents)[i]),
    ensures
        rewritten_todo(rewritten_todo(contents)) == rewritten_todo(contents),
{
    let ls = lines(contents);
    let m = ls.map_values(|l: Seq<char>| rewrite_todo_line(l));
    let r = rewritten_todo(contents);
    if ls.len() == 0 {
        assert(m =~= Seq::<Seq<char>>::empty());
        assert(r =~= seq!['\n']);
        let e = Seq::<char>::empty();
        assert(r =~= e.push('\n'));
        assert(r.drop_last() =~= e);
        lemma_lines_of_newline(r);
        assert(ws_prefix_len(e) == 0);
        assert(rewrite_todo_line(e) == e);
        assert(lines(r).map_values(|l: Seq<char>| rewrite_todo_line(l)) =~= seq![e]);
    } else {
        law_rewritten_lines(contents);
        lemma_lines_no_newlines(contents);
        assert forall|i: int| 0 <= i < m.len() implies rewrite_todo_line(#[trigger] m[i]) == m[i] by {
            assert forall|j: int| 0 <= j < ls[i].len() implies ls[i][j] != '\n' by {}
            lemma_rewrite_line(ls[i]);
        }
        assert(m.map_values(|l: Seq<char>| rewrite_todo_line(l)) =~= m);
    }
}

/// The lines of a lone `\n` are one empty line.
proof fn lemma_lines_of_newline(r: Seq<char>)
    requires
        r == seq!['\n'],
    ensures
        lines(r) == seq![Seq::<char>::empty()],
{
    let e = Seq::<char>::empty();
    assert(r.drop_last() =~= e);
    assert(strip_cr(e) == e);
    assert(scan_lines(e) == (Seq::<Seq<char>>::empty(), e));
    assert(r.last() == '\n');
    assert(scan_lines(r) == (Seq::<Seq<char>>::empty().push(e), e));
    assert(Seq::<Seq<char>>::empty().push(e) =~= seq![e]);
}


/// A message that lost co-author lines ends with exactly one newline: its
/// last character is `\n` and the one before it is not (trailing blank
/// lines are collapsed).
pub proof fn law_single_final_newline(msg: Seq<char>)
    requires
        stripped_lines(msg).len() > 0,
        removed_count(msg) > 0,
    ensures
        stripped_message(msg).len() >= 2,
        stripped_message(msg).last() == '\n',
        stripped_message(msg)[stripped_message(msg).len() - 2] != '\n',
{
    lemma_stripped_lines(msg);
    let k = stripped_lines(msg);
    let p = k.last();
    assert(is_piece(k[k.len() - 1]));
    lemma_terminate_piece(p);
    let t = terminate(p);
    if p.last() == '\n' {
        if p.len() == 1 {
            assert(line_of(p) =~= Seq::<char>::empty());
        }
    }
    assert(t.len() >= 2);
    assert(t[t.len() - 2] != '\n');
    lemma_concat_terminate(k);
    let ts = k.map_values(|q: Seq<char>| terminate(q));
    let s = concat(ts);
    assert(ts.last() == t);
    assert(s == concat(ts.drop_last()) + t);
    assert(s[s.len() - 2] == t[t.len() - 2]);
}

/// Git comment lines (starting with `#`) are never co-author trailers, so
/// cleaning keeps them, and rewriting a todo list leaves them as they are.
pub proof fn law_comment_lines_kept(l: Seq<char>)
    requires
        l.len() > 0,
        l[0] == '#',
    ensures
        !is_coauthor_line(l),
        rewrite_todo_line(l) == l,
{
    assert(!is_white_space(l[0]));
    lemma_ws_prefix_len(l, 0);
    assert(trim_start(l) =~= l);
    if trim_start(l).len() >= coauthor_tag().len() {
        assert(ascii_lower(l[0]) == '#');
        assert(ascii_lower(trim_start(l)[0]) != coauthor_tag()[0]);
    }
    if l.len() >= pick_word().len() {
        assert(l.skip(0).take(pick_word().len() as int)[0] == '#');
    }
}


// ---------------------------------------------------------------------------
// What the operations do, stated over their inputs
// ---------------------------------------------------------------------------

/// Whether a line (with its ending) is a co-author trailer.
pub open spec fn coauthor_piece(p: Seq<char>) -> bool {
    is_coauthor_line(line_of(p))
}

/// Whether a line (with its ending) is not a co-author trailer.
pub open spec fn plain_piece(p: Seq<char>) -> bool {
    !is_coauthor_line(line_of(p))
}

/// Filtering out the co-author trailers keeps exactly the other lines, in
/// order; the trailers counted are exactly the lines dropped.
proof fn lemma_filters(ps: Seq<Seq<char>>)
    ensures
        without_coauthors(ps) == ps.filter(|p: Seq<char>| plain_piece(p)),
        coauthor_count(ps) == ps.filter(|p: Seq<char>| coauthor_piece(p)).len(),
        coauthor_count(ps) + without_coauthors(ps).len() == ps.len(),
    decreases ps.len(),
{
    reveal(Seq::filter);
    if ps.len() > 0 {
        lemma_filters(ps.drop_last());
    }
}

/// Counting co-author lines adds up over consecutive runs of lines.
proof fn lemma_count_add(a: Seq<Seq<char>>, b: Seq<Seq<char>>)
    ensures
        coauthor_count(a + b) == coauthor_count(a) + coauthor_count(b),
    decreases b.len(),
{
    if b.len() == 0 {
        assert(a + b =~= a);
    } else {
        lemma_count_add(a, b.drop_last());
        assert((a + b).drop_last() =~= a + b.drop_last());
        assert((a + b).last() == b.last());
    }
}

/// The texts of the lines, filtered, are the filtered lines' texts.
proof fn lemma_count_texts(ps: Seq<Seq<char>>)
    ensures
        ps.map_values(|p: Seq<char>| line_of(p)).filter(|l: Seq<char>| is_coauthor_line(l)).len()
            == ps.filter(|p: Seq<char>| coauthor_piece(p)).len(),
    decreases ps.len(),
{
    reveal(Seq::filter);
    let f = |p: Seq<char>| line_of(p);
    if ps.len() > 0 {
        lemma_count_texts(ps.drop_last());
        assert(ps.map_values(f).drop_last() =~= ps.drop_last().map_values(f));
        assert(ps.map_values(f).last() == line_of(ps.last()));
    }
}

/// The count of removed lines: `strip_coauthors` reports exactly the number
/// of lines of the message (as `str::lines` yields them) that are co-author
/// trailers — every one of them, wherever it stands — and counting adds up
/// over consecutive runs of lines.
pub proof fn law_removed_count(msg: Seq<char>, a: Seq<Seq<char>>, b: Seq<Seq<char>>)
    ensures
        removed_count(msg) == raw_lines(msg).filter(|p: Seq<char>| coauthor_piece(p)).len(),
        removed_count(msg) == lines(msg).filter(|l: Seq<char>| is_coauthor_line(l)).len(),
        removed_count(msg) + raw_lines(msg).filter(|p: Seq<char>| plain_piece(p)).len()
            == raw_lines(msg).len(),
        coauthor_count(a + b) == coauthor_count(a) + coauthor_count(b),
{
    lemma_filters(raw_lines(msg));
    lemma_lines_of_raw_lines(msg);
    lemma_count_texts(raw_lines(msg));
    lemma_count_add(a, b);
}

/// The lines kept: the lines of the message that are not co-author
/// trailers, in order and each with its own ending, less only the blank
/// lines at their end. So every non-trailer line followed by a non-blank
/// non-trailer line survives, blank lines between paragraphs included.
pub proof fn law_kept_lines(msg: Seq<char>)
    ensures
        ({
            let f = raw_lines(msg).filter(|p: Seq<char>| plain_piece(p));
            let k = stripped_lines(msg);
            &&& k.len() <= f.len()
            &&& k == f.take(k.len() as int)
            &&& forall|j: int| k.len() <= j < f.len() ==> is_blank(line_of(#[trigger] f[j]))
            &&& k.len() > 0 ==> !is_blank(line_of(k.last()))
            &&& k.len() == 0 <==> forall|j: int| 0 <= j < f.len() ==> is_blank(line_of(#[trigger] f[j]))
        }),
{
    let f = raw_lines(msg).filter(|p: Seq<char>| plain_piece(p));
    lemma_filters(raw_lines(msg));
    lemma_trailing_blank_suffix(f);
    lemma_drop_trailing_blank(f);
}

/// What dropping the trailing blank lines removes: only blank lines.
proof fn lemma_trailing_blank_suffix(ps: Seq<Seq<char>>)
    ensures
        forall|j: int|
            drop_trailing_blank(ps).len() <= j < ps.len() ==> is_blank(line_of(#[trigger] ps[j])),
    decreases ps.len(),
{
    if ps.len() > 0 && is_blank(line_of(ps.last())) {
        let init = ps.drop_last();
        lemma_trailing_blank_suffix(init);
        lemma_drop_trailing_blank(init);
        assert forall|j: int| drop_trailing_blank(ps).len() <= j < ps.len() implies is_blank(
            line_of(#[trigger] ps[j]),
        ) by {
            if j < init.len() {
                assert(ps[j] == init[j]);
            }
        }
    }
}

/// The cleaned message, from the kept lines: the message itself when no
/// line was removed; else the kept lines one after the other, each with
/// its own ending, and a final `\n` only when the last had no ending.
pub proof fn law_cleaned_message(msg: Seq<char>)
    requires
        stripped_lines(msg).len() > 0,
    ensures
        removed_count(msg) == 0 ==> stripped_message(msg) == msg,
        removed_count(msg) > 0 ==> ({
            let k = stripped_lines(msg);
            if k.last().last() == '\n' {
                stripped_message(msg) == concat(k)
            } else {
                stripped_message(msg) == concat(k).push('\n')
            }
        }),
{
    lemma_stripped_lines(msg);
    let k = stripped_lines(msg);
    assert(is_piece(k[k.len() - 1]));
    assert(concat(k) == concat(k.drop_last()) + k.last());
    assert(concat(k).last() == k.last().last());
}

/// A rebase todo line whose text after its leading white space (the first
/// `n` characters) starts with `pick ` becomes that white space, `reword `
/// and the rest of the line character for character.
pub proof fn law_pick_line_rewritten(l: Seq<char>, n: int)
    requires
        0 <= n <= l.len(),
        forall|j: int| 0 <= j < n ==> is_white_space(#[trigger] l[j]),
        n == l.len() || !is_white_space(l[n]),
        n + 5 <= l.len(),
        l.subrange(n, n + 5) == seq!['p', 'i', 'c', 'k', ' '],
    ensures
        rewrite_todo_line(l) == l.take(n) + seq!['r', 'e', 'w', 'o', 'r', 'd', ' '] + l.skip(n + 5),
        rewrite_todo_line(l).skip(n + 7) == l.skip(n + 5),
{
    lemma_ws_prefix_len(l, n);
    let t = l.skip(n);
    assert(t.take(5) =~= l.subrange(n, n + 5));
    assert(pick_word() =~= seq!['p', 'i', 'c', 'k', ' ']);
    assert(reword_word() =~= seq!['r', 'e', 'w', 'o', 'r', 'd', ' ']);
    assert(t.skip(5) =~= l.skip(n + 5));
    let r = l.take(n) + seq!['r', 'e', 'w', 'o', 'r', 'd', ' '] + l.skip(n + 5);
    assert(r.skip(n + 7) =~= l.skip(n + 5));
}

/// A rebase todo line whose text after its leading white space (the first
/// `n` characters) does not start with `pick ` (a `fixup`, `squash`,
/// `exec`, comment or any other line) is left exactly as it is.
pub proof fn law_other_line_unchanged(l: Seq<char>, n: int)
    requires
        0 <= n <= l.len(),
        forall|j: int| 0 <= j < n ==> is_white_space(#[trigger] l[j]),
        n == l.len() || !is_white_space(l[n]),
        !(n + 5 <= l.len() && l.subrange(n, n + 5) == seq!['p', 'i', 'c', 'k', ' ']),
    ensures
        rewrite_todo_line(l) == l,
{
    lemma_ws_prefix_len(l, n);
    let t = l.skip(n);
    if t.len() >= 5 {
        assert(t.take(5) =~= l.subrange(n, n + 5));
    }
    assert(pick_word() =~= seq!['p', 'i', 'c', 'k', ' ']);
}


/// Which lines are co-author trailers: those whose text after the leading
/// white space (the first `n` characters) starts with `co-authored-by:`
/// in any ASCII letter case.
pub proof fn law_coauthor_line(l: Seq<char>, n: int)
    requires
        0 <= n <= l.len(),
        forall|j: int| 0 <= j < n ==> is_white_space(#[trigger] l[j]),
        n == l.len() || !is_white_space(l[n]),
    ensures
        is_coauthor_line(l) <==> (n + 15 <= l.len() && l.subrange(n, n + 15).map_values(
            |c: char| ascii_lower(c),
        ) == seq!['c', 'o', '-', 'a', 'u', 't', 'h', 'o', 'r', 'e', 'd', '-', 'b', 'y', ':']),
{
    lemma_ws_prefix_len(l, n);
    let t = trim_start(l);
    let tag = seq!['c', 'o', '-', 'a', 'u', 't', 'h', 'o', 'r', 'e', 'd', '-', 'b', 'y', ':'];
    assert(coauthor_tag() =~= tag);
    if n + 15 <= l.len() {
        let m = l.subrange(n, n + 15).map_values(|c: char| ascii_lower(c));
        assert forall|i: int| 0 <= i < 15 implies m[i] == ascii_lower(#[trigger] t[i]) by {}
        if is_coauthor_line(l) {
            assert(m =~= tag);
        }
        if m == tag {
            assert forall|i: int| 0 <= i < coauthor_tag().len() implies ascii_lower(#[trigger] t[i])
                == coauthor_tag()[i] by {
                assert(m[i] == tag[i]);
            }
        }
    }
}

/// The lines with their endings make up the message, one after the other.
pub proof fn law_lines_make_up_message(msg: Seq<char>)
    ensures
        concat(raw_lines(msg)) == msg,
        lines(msg) == raw_lines(msg).map_values(|p: Seq<char>| line_of(p)),
{
    lemma_raw_lines_shape(msg);
    lemma_lines_of_raw_lines(msg);
}

} // verus!

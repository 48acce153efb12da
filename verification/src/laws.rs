//! Proved guarantees of the bundling transform.

use vstd::prelude::*;

use crate::model::{
    bundle_from, bundle_spec, do_line, emit, ends_with_sep, finalize, init_machine, join_line,
    lemma_line_end_props, line_end, scan_char, scan_from, unemit, Context, Machine,
};

verus! {

/// Trailing normalization: every successful bundling, of any input at all,
/// ends in exactly the statement separator `; `, so bundles can be
/// concatenated safely.
pub proof fn lemma_trailing_separator(s: Seq<char>)
    requires
        bundle_spec(s) is Some,
    ensures
        ends_with_sep(bundle_spec(s)->0),
        bundle_spec(s)->0.len() >= 2,
{
}

/// Fatal unmatched expansion: a `${...}` parameter expansion still open
/// when another line begins aborts the whole run; no output is produced.
pub proof fn lemma_fatal_unmatched_expansion(m: Machine, s: Seq<char>, i: int, first: bool)
    requires
        0 <= i < s.len(),
        m.braces > 0,
    ensures
        bundle_from(m, s, i, first) is None,
{
}

/// `line_end` is the first line break: it lands on `j` when everything
/// before `j` is ordinary and `j` holds the break.
proof fn lemma_line_end_at(s: Seq<char>, i: int, j: int)
    requires
        0 <= i <= j < s.len(),
        forall|k: int| i <= k < j ==> s[k] != '\n',
        s[j] == '\n',
    ensures
        line_end(s, i) == j,
    decreases j - i,
{
    if i < j {
        lemma_line_end_at(s, i + 1, j);
    }
}

/// Dropping a prefix of the input does not move the line break relative to
/// positions after the prefix.
proof fn lemma_line_end_shift(s: Seq<char>, d: int, i: int)
    requires
        0 <= d <= i <= s.len(),
    ensures
        line_end(s, i) == d + line_end(s.skip(d), i - d),
    decreases s.len() - i,
{
    assert(s.skip(d).len() == s.len() - d);
    if i < s.len() {
        assert(s.skip(d)[i - d] == s[i]);
        if s[i] != '\n' {
            lemma_line_end_shift(s, d, i + 1);
        }
    }
}

/// Scanning reads only the characters at and after the current position, so
/// a dropped prefix changes nothing.
proof fn lemma_scan_shift(m: Machine, s: Seq<char>, d: int, i: int, e: int, reached: bool)
    requires
        0 <= d <= i,
        i <= e <= s.len(),
    ensures
        scan_from(m, s, i, e, reached) == scan_from(m, s.skip(d), i - d, e - d, reached),
    decreases e - i,
{
    if i < e {
        assert(s.skip(d)[i - d] == s[i]);
        let st = scan_char(m, s[i], reached);
        if !st.stop {
            lemma_scan_shift(st.m, s, d, i + 1, e, st.reached);
        }
    }
}

/// The whole run reads only the characters at and after the current
/// position, so a dropped prefix changes nothing.
proof fn lemma_bundle_shift(m: Machine, s: Seq<char>, d: int, i: int, first: bool)
    requires
        0 <= d <= i <= s.len(),
    ensures
        bundle_from(m, s, i, first) == bundle_from(m, s.skip(d), i - d, first),
    decreases s.len() - i,
{
    assert(s.skip(d).len() == s.len() - d);
    if i < s.len() && m.braces <= 0 {
        lemma_line_end_shift(s, d, i);
        lemma_line_end_props(s, i);
        let e = line_end(s, i);
        lemma_scan_shift(join_line(m, first), s, d, i, e, false);
        let m1 = do_line(m, s, i, e, first);
        assert(m1 == do_line(m, s.skip(d), i - d, e - d, first));
        if e < s.len() {
            lemma_bundle_shift(m1, s, d, e + 1, false);
        }
    }
}

/// A line whose first real character is `#`: leading spaces, then the
/// comment sigil, then anything but a line break.
pub open spec fn comment_line(c: Seq<char>) -> bool {
    &&& exists|k: int|
        0 <= k < c.len() && #[trigger] c[k] == '#' && forall|l: int| 0 <= l < k ==> c[l] == ' '
    &&& forall|k: int| 0 <= k < c.len() ==> c[k] != '\n'
}

/// Scanning a comment line from `Normal` context leaves the machine exactly
/// as it was, save for marking the line empty.
proof fn lemma_scan_comment(m: Machine, s: Seq<char>, i: int, e: int, k: int)
    requires
        m.ctx is Normal,
        m.prev != '$',
        m.prev != '\\',
        0 <= i <= k < e <= s.len(),
        s[k] == '#',
        forall|l: int| i <= l < k ==> s[l] == ' ',
    ensures
        scan_from(m, s, i, e, false) == (Machine { ctx: Context::EmptyLine, ..m }),
    decreases k - i,
{
    if i < k {
        lemma_scan_comment(m, s, i + 1, e, k);
    }
}

/// Comment elision: from any state outside a string whose joined output
/// does not end in `$` or `\`, a comment line contributes nothing at all to
/// the result; bundling the comment line followed by the remaining input is
/// the same as bundling the remaining input alone.
pub proof fn lemma_comment_elision(m: Machine, c: Seq<char>, rest: Seq<char>, first: bool)
    requires
        comment_line(c),
        m.braces == 0,
        m.ctx is Normal || m.ctx is EmptyLine,
        join_line(m, first).prev != '$',
        join_line(m, first).prev != '\\',
        rest.len() > 0,
    ensures
        bundle_from(m, c + seq!['\n'] + rest, 0, first) == bundle_from(m, rest, 0, first),
{
    let s = c + seq!['\n'] + rest;
    let e = c.len() as int;
    assert(s.len() == c.len() + 1 + rest.len());
    assert(s[e] == '\n');
    assert(forall|k: int| 0 <= k < e ==> s[k] == c[k] && s[k] != '\n');
    lemma_line_end_at(s, 0, e);
    let j = join_line(m, first);
    assert(j.ctx is Normal);
    assert(j.braces == m.braces);
    let k = choose|k: int|
        0 <= k < c.len() && #[trigger] c[k] == '#' && forall|l: int| 0 <= l < k ==> c[l] == ' ';
    assert(s[k] == '#');
    assert(forall|l: int| 0 <= l < k ==> s[l] == ' ');
    lemma_scan_comment(j, s, 0, e, k);
    let m1 = Machine { ctx: Context::EmptyLine, ..j };
    assert(do_line(m, s, 0, e, first) == m1);
    assert(bundle_from(m, s, 0, first) == bundle_from(m1, s, e + 1, false));
    lemma_bundle_shift(m1, s, e + 1, e + 1, false);
    assert(s.skip(e + 1) =~= rest);
    assert(bundle_from(m, s, 0, first) == bundle_from(m1, rest, 0, false));
    // Both runs now join the next line from states that differ only in the
    // elided-line marker, which the join policy discards.
    let e2 = line_end(rest, 0);
    lemma_line_end_props(rest, 0);
    assert(join_line(m1, false) =~= j);
    assert(do_line(m1, rest, 0, e2, false) == do_line(m, rest, 0, e2, first));
    assert(bundle_from(m1, rest, 0, false) == bundle_from(m, rest, 0, first));
}

/// Whether the machine sits inside the string delimited by `q`.
spec fn in_string(m: Machine, q: char) -> bool {
    if q == '"' {
        m.ctx is DoubleQuoteString
    } else {
        q == '\'' && m.ctx is SingleQuoteString
    }
}

/// Finish the current line from mid-position `i`, then run the machine over
/// all remaining lines: the tail of a run whose line was entered earlier.
spec fn run_line_tail(m: Machine, s: Seq<char>, i: int, e: int, reached: bool) -> Option<
    Machine,
> {
    let m1 = scan_from(m, s, i, e, reached);
    if e >= s.len() {
        Some(m1)
    } else {
        bundle_from(m1, s, e + 1, false)
    }
}

/// Inside a string, characters other than the delimiter pass through
/// verbatim, with no other effect on the machine.
proof fn lemma_scan_verbatim(m: Machine, s: Seq<char>, i: int, e: int, reached: bool, q: char)
    requires
        in_string(m, q),
        0 <= i <= e <= s.len(),
        forall|k: int| i <= k < e ==> s[k] != q,
    ensures
        ({
            let r = scan_from(m, s, i, e, reached);
            &&& r.out == m.out + s.subrange(i, e)
            &&& r.ctx == m.ctx
            &&& r.braces == m.braces
            &&& r.parens == m.parens
            &&& r.prev == (if i < e {
                s[e - 1]
            } else {
                m.prev
            })
        }),
    decreases e - i,
{
    if i < e {
        let st = scan_char(m, s[i], reached);
        lemma_scan_verbatim(st.m, s, i + 1, e, st.reached, q);
        assert(st.m.out + s.subrange(i + 1, e) =~= m.out + s.subrange(i, e));
    } else {
        assert(m.out + s.subrange(i, e) =~= m.out);
    }
}

/// Inside a string, a run of verbatim characters followed by the closing
/// delimiter emits exactly those characters and returns to `Normal`.
proof fn lemma_scan_close(m: Machine, s: Seq<char>, i: int, e: int, reached: bool, q: char)
    requires
        in_string(m, q),
        0 <= i < e <= s.len(),
        s[e - 1] == q,
        forall|k: int| i <= k < e - 1 ==> s[k] != q,
        e - 1 > i ==> s[e - 2] != '\\',
        e - 1 == i ==> m.prev != '\\',
    ensures
        ({
            let r = scan_from(m, s, i, e, reached);
            &&& r.out == m.out + s.subrange(i, e)
            &&& r.ctx is Normal
            &&& r.braces == m.braces
            &&& r.parens == m.parens
            &&& r.prev == q
        }),
    decreases e - i,
{
    let st = scan_char(m, s[i], reached);
    assert(!st.stop);
    assert(scan_from(m, s, i, e, reached) == scan_from(st.m, s, i + 1, e, st.reached));
    if i == e - 1 {
        assert(scan_from(st.m, s, i + 1, e, st.reached) == st.m);
        assert(st.m.out =~= m.out + s.subrange(i, e));
    } else {
        lemma_scan_close(st.m, s, i + 1, e, st.reached, q);
        assert(st.m.out + s.subrange(i + 1, e) =~= m.out + s.subrange(i, e));
    }
}

/// From inside a string, with the rest of the input being string content
/// closed by the final delimiter, the run reproduces every remaining
/// character verbatim, line breaks included, and ends back in `Normal`.
proof fn lemma_quoted_tail(m: Machine, s: Seq<char>, i: int, reached: bool, q: char)
    requires
        in_string(m, q),
        m.braces == 0,
        0 <= i < s.len(),
        s[s.len() - 1] == q,
        forall|k: int| i <= k < s.len() - 1 ==> s[k] != q,
        i < s.len() - 1 ==> s[s.len() - 2] != '\\',
        i == s.len() - 1 ==> m.prev != '\\',
        q == '"' || q == '\'',
    ensures
        ({
            let r = run_line_tail(m, s, i, line_end(s, i), reached);
            &&& r matches Some(mm)
            &&& mm.out == m.out + s.subrange(i, s.len() as int)
            &&& mm.ctx is Normal
        }),
    decreases s.len() - i,
{
    let e = line_end(s, i);
    lemma_line_end_props(s, i);
    if e >= s.len() {
        lemma_scan_close(m, s, i, s.len() as int, reached, q);
    } else {
        assert(s[e] == '\n');
        assert(e != s.len() - 1);
        lemma_scan_verbatim(m, s, i, e, reached, q);
        let m1 = scan_from(m, s, i, e, reached);
        let m2 = join_line(m1, false);
        assert(m2 == emit(m1, '\n'));
        lemma_quoted_tail(m2, s, e + 1, false, q);
        assert(bundle_from(m1, s, e + 1, false) == run_line_tail(
            m2,
            s,
            e + 1,
            line_end(s, e + 1),
            false,
        ));
        let mm = run_line_tail(m2, s, e + 1, line_end(s, e + 1), false)->0;
        assert(m2.out =~= m.out + s.subrange(i, e + 1));
        assert(mm.out =~= m.out + s.subrange(i, s.len() as int));
    }
}

/// String fidelity: an input that is one quoted string — however many lines
/// it spans — bundles to exactly itself plus the trailing separator.  Every
/// character of the string body, embedded line breaks and runs of spaces
/// included, appears in the output unchanged.
pub proof fn lemma_string_fidelity(body: Seq<char>, q: char)
    requires
        q == '"' || q == '\'',
        forall|i: int| 0 <= i < body.len() ==> body[i] != q,
        body.len() > 0 ==> body[body.len() - 1] != '\\',
    ensures
        bundle_spec(seq![q] + body + seq![q]) == Some(seq![q] + body + seq![q, ';', ' ']),
{
    let s = seq![q] + body + seq![q];
    let n = s.len() as int;
    assert(n == body.len() + 2);
    assert(s[0] == q);
    assert(s[n - 1] == q);
    assert(forall|k: int| 1 <= k < n - 1 ==> s[k] == body[k - 1]);
    let e0 = line_end(s, 0);
    lemma_line_end_props(s, 0);
    assert(q != '\n');
    assert(e0 >= 1);
    let j = join_line(init_machine(), true);
    assert(j == init_machine());
    let st = scan_char(init_machine(), q, false);
    let mq = st.m;
    assert(in_string(mq, q));
    assert(mq.prev == q);
    assert(scan_from(init_machine(), s, 0, e0, false) == scan_from(mq, s, 1, e0, true));
    lemma_quoted_tail(mq, s, 1, true, q);
    assert(line_end(s, 1) == e0);
    let mm = run_line_tail(mq, s, 1, e0, true)->0;
    assert(do_line(init_machine(), s, 0, e0, true) == scan_from(init_machine(), s, 0, e0, false));
    assert(bundle_from(init_machine(), s, 0, true) == run_line_tail(mq, s, 1, e0, true));
    assert(mq.out =~= s.subrange(0, 1));
    assert(mm.out =~= s);
    assert(!ends_with_sep(s));
    assert(finalize(s) =~= seq![q] + body + seq![q, ';', ' ']);
}

/// An input with none of the characters that open a verbatim region or
/// stand for a separator themselves: no quotes, no braces, no semicolons.
pub open spec fn plain_input(s: Seq<char>) -> bool {
    forall|i: int|
        0 <= i < s.len() ==> s[i] != '"' && s[i] != '\'' && s[i] != '{' && s[i] != ';'
}

/// No two adjacent spaces anywhere in the output.
pub open spec fn no_space_run(out: Seq<char>) -> bool {
    forall|i: int| 0 <= i && i + 1 < out.len() ==> !(out[i] == ' ' && #[trigger] out[i + 1] == ' ')
}

/// Every semicolon is immediately followed by a space — so the output never
/// holds `;;`, never ends in a bare `;`, and a `;;;` run is impossible.
pub open spec fn seps_spaced(out: Seq<char>) -> bool {
    forall|i: int| 0 <= i < out.len() && #[trigger] out[i] == ';' ==> i + 1 < out.len() && out[i + 1] == ' '
}

/// The output of a plain input is a single line holding none of the
/// characters that would change how it is read a second time.
pub open spec fn line_chars(out: Seq<char>) -> bool {
    forall|k: int|
        0 <= k < out.len() ==> out[k] != '\n' && out[k] != '"' && out[k] != '\'' && out[k] != '{'
}

/// The output never begins with a space.
pub open spec fn no_leading_space(out: Seq<char>) -> bool {
    out.len() > 0 ==> out[0] != ' '
}

/// Every `#` in the output sits right behind the `$` or `\` that made it
/// ordinary content, so a second scan reads it the same way.
pub open spec fn hash_guarded(out: Seq<char>) -> bool {
    forall|k: int|
        0 <= k < out.len() && #[trigger] out[k] == '#' ==> k > 0 && (out[k - 1] == '$' || out[k
            - 1] == '\\')
}

/// The `k`-th character from the end of the output, padding with the spaces
/// the look-back register starts from.
spec fn pad(out: Seq<char>, k: int) -> char {
    if out.len() >= k {
        out[out.len() - k]
    } else {
        ' '
    }
}

/// The machine invariant behind the separator guarantees: the scanner sits
/// outside every verbatim region, the register mirrors the output's tail
/// (the third slot may hold its placeholder except under a pending `\`),
/// and the output itself is tidy.
spec fn tidy(m: Machine) -> bool {
    &&& m.ctx is Normal || m.ctx is EmptyLine
    &&& m.braces == 0
    &&& m.prev == pad(m.out, 1)
    &&& m.pre_prev == pad(m.out, 2)
    &&& (m.third == pad(m.out, 3) || m.third == ' ')
    &&& (m.prev == '\\' ==> m.third == pad(m.out, 3))
    &&& no_space_run(m.out)
    &&& seps_spaced(m.out)
    &&& line_chars(m.out)
    &&& no_leading_space(m.out)
    &&& hash_guarded(m.out)
}

/// Mid-line bookkeeping: once a real character was reached, something was
/// emitted on this line, and a trailing space cannot hide a `;` right
/// behind it.
spec fn line_extra(m: Machine, reached: bool) -> bool {
    reached ==> m.out.len() > 0 && (m.prev == ' ' ==> m.pre_prev != ';')
}

/// A tidy output never ends in a semicolon.
proof fn lemma_tidy_no_trailing_sep(m: Machine)
    requires
        tidy(m),
    ensures
        m.prev != ';',
{
    if m.out.len() > 0 && m.prev == ';' {
        assert(m.out[m.out.len() - 1] == ';');
    }
}

/// The join policy preserves tidiness.
proof fn lemma_join_tidy(m: Machine, first: bool)
    requires
        tidy(m),
    ensures
        tidy(join_line(m, first)),
        join_line(m, first).ctx is Normal,
        join_line(m, first).parens == m.parens,
{
    lemma_tidy_no_trailing_sep(m);
    let r = join_line(m, first);
    if m.ctx is EmptyLine {
    } else if m.prev == ' ' {
        if m.parens == 0 && !first && m.pre_prev != ';' {
            if m.out.len() == 0 {
                assert(r.out =~= m.out.push(';').push(' '));
            } else {
                assert(r.out =~= m.out.drop_last().push(';').push(' '));
                assert(forall|i: int| 0 <= i && i + 2 < r.out.len() ==> r.out[i] == m.out[i]);
            }
        }
    } else if m.prev == '\\' {
        if m.pre_prev == ' ' {
            assert(m.out.len() >= 1);
            assert(r.out =~= m.out.drop_last());
            assert(forall|i: int| 0 <= i && i + 1 < r.out.len() ==> r.out[i] == m.out[i]);
        }
    }
}

/// One scanned character of a plain input preserves tidiness.
proof fn lemma_step_tidy(m: Machine, c: char, reached: bool)
    requires
        tidy(m),
        line_extra(m, reached),
        c != '"',
        c != '\'',
        c != '{',
        c != ';',
        c != '\n',
    ensures
        ({
            let st = scan_char(m, c, reached);
            &&& tidy(st.m)
            &&& !st.stop ==> line_extra(st.m, st.reached)
        }),
{
    lemma_tidy_no_trailing_sep(m);
    let st = scan_char(m, c, reached);
    if m.ctx is Normal {
        if c == '#' {
            if m.prev == '$' || m.prev == '\\' {
                assert(m.out.len() > 0);
                assert(st.m.out =~= m.out.push('#'));
                assert(forall|i: int| 0 <= i < m.out.len() ==> st.m.out[i] == m.out[i]);
            } else if !reached {
            } else {
                if m.prev == ' ' {
                    let m1 = unemit(m);
                    if m.out.len() == 0 {
                        if m.parens == 0 {
                            assert(st.m.out =~= m.out.push(';').push(' '));
                        } else {
                            assert(st.m.out =~= m.out.push(' '));
                        }
                    } else {
                        assert(m1.out =~= m.out.drop_last());
                        assert(forall|i: int|
                            0 <= i && i + 1 < m1.out.len() ==> m1.out[i] == m.out[i]);
                        assert(m1.prev != ';');
                        if m.parens == 0 {
                            assert(st.m.out =~= m.out.drop_last().push(';').push(' '));
                            assert(forall|i: int|
                                0 <= i < m1.out.len() ==> st.m.out[i] == m1.out[i]);
                        } else {
                            assert(st.m.out =~= m.out.drop_last().push(' '));
                            assert(forall|i: int|
                                0 <= i < m1.out.len() ==> st.m.out[i] == m1.out[i]);
                        }
                    }
                } else {
                    if m.parens == 0 {
                        assert(st.m.out =~= m.out.push(';').push(' '));
                    } else {
                        assert(st.m.out =~= m.out.push(' '));
                    }
                    assert(forall|i: int| 0 <= i < m.out.len() ==> st.m.out[i] == m.out[i]);
                }
            }
        } else {
            assert(st.m.out == m.out || st.m.out == m.out.push(c));
            if st.m.out == m.out.push(c) {
                assert(forall|i: int| 0 <= i < m.out.len() ==> st.m.out[i] == m.out[i]);
                if c == ' ' {
                    assert(m.out.len() > 0);
                }
            }
        }
    }
}

/// Scanning one whole line of a plain input preserves tidiness.
proof fn lemma_scan_tidy(m: Machine, s: Seq<char>, i: int, e: int, reached: bool)
    requires
        tidy(m),
        line_extra(m, reached),
        0 <= i <= e <= s.len(),
        plain_input(s),
        forall|k: int| i <= k < e ==> s[k] != '\n',
    ensures
        tidy(scan_from(m, s, i, e, reached)),
    decreases e - i,
{
    if i < e {
        lemma_step_tidy(m, s[i], reached);
        let st = scan_char(m, s[i], reached);
        if !st.stop {
            lemma_scan_tidy(st.m, s, i + 1, e, st.reached);
        }
    }
}

/// Running the machine over every line of a plain input never hits the
/// fatal condition and preserves tidiness to the very end.
proof fn lemma_bundle_tidy(m: Machine, s: Seq<char>, i: int, first: bool)
    requires
        tidy(m),
        0 <= i <= s.len(),
        plain_input(s),
    ensures
        ({
            let r = bundle_from(m, s, i, first);
            &&& r matches Some(mm)
            &&& tidy(mm)
        }),
    decreases s.len() - i,
{
    if i < s.len() {
        lemma_line_end_props(s, i);
        let e = line_end(s, i);
        lemma_join_tidy(m, first);
        let m1 = join_line(m, first);
        let md = do_line(m, s, i, e, first);
        if m1.ctx is Normal && i >= e {
            assert(tidy(md));
        } else {
            lemma_scan_tidy(m1, s, i, e, false);
        }
        if e < s.len() {
            lemma_bundle_tidy(md, s, e + 1, false);
        }
    }
}

/// Rescanning a tidy single-line output reproduces it character for
/// character: every revision the scanner could make has already been made.
proof fn lemma_rescan_verbatim(out: Seq<char>, k: int, m: Machine)
    requires
        line_chars(out),
        no_space_run(out),
        seps_spaced(out),
        hash_guarded(out),
        no_leading_space(out),
        0 <= k <= out.len(),
        m.ctx is Normal,
        m.braces == 0,
        m.out == out.subrange(0, k),
        m.prev == (if k > 0 {
            out[k - 1]
        } else {
            ' '
        }),
        m.pre_prev == (if k > 1 {
            out[k - 2]
        } else {
            ' '
        }),
    ensures
        scan_from(m, out, k, out.len() as int, k > 0).out == out,
    decreases out.len() - k,
{
    if k < out.len() {
        let c = out[k];
        let st = scan_char(m, c, k > 0);
        assert(!st.stop);
        assert(st.m.out =~= out.subrange(0, k + 1));
        assert(st.reached == (k + 1 > 0));
        lemma_rescan_verbatim(out, k + 1, st.m);
    } else {
        assert(m.out =~= out);
    }
}

/// Idempotence on separators: for a plain input — one free of quotes,
/// expansion braces and literal semicolons — bundling always succeeds, and
/// the output never holds a run of two spaces, never a `;` that is not
/// immediately followed by a space, and so never `;;` or an over-inserted
/// `;;;`.
pub proof fn lemma_no_separator_runs(s: Seq<char>)
    requires
        plain_input(s),
    ensures
        bundle_spec(s) is Some,
        no_space_run(bundle_spec(s)->0),
        seps_spaced(bundle_spec(s)->0),
        forall|i: int|
            0 <= i && i + 1 < bundle_spec(s)->0.len() ==> !(#[trigger] bundle_spec(s)->0[i] == ';'
                && bundle_spec(s)->0[i + 1] == ';'),
{
    assert(tidy(init_machine()));
    lemma_bundle_tidy(init_machine(), s, 0, true);
    let mm = bundle_from(init_machine(), s, 0, true)->0;
    lemma_tidy_no_trailing_sep(mm);
    let out = finalize(mm.out);
    if !ends_with_sep(mm.out) {
        assert(out =~= mm.out.push(';').push(' '));
        assert(forall|i: int| 0 <= i && i + 2 < out.len() ==> out[i] == mm.out[i]);
    }
    assert(no_space_run(out));
    assert(seps_spaced(out));
}

/// Idempotence: bundling the bundler's own output changes nothing at all,
/// for any plain input — the guaranteed trailing `; ` is already there, so
/// a second run reproduces the text exactly.
pub proof fn lemma_rebundle_no_op(s: Seq<char>)
    requires
        plain_input(s),
    ensures
        bundle_spec(s) matches Some(out) && bundle_spec(out) == Some(out),
{
    assert(tidy(init_machine()));
    lemma_bundle_tidy(init_machine(), s, 0, true);
    let mm = bundle_from(init_machine(), s, 0, true)->0;
    lemma_tidy_no_trailing_sep(mm);
    let out = finalize(mm.out);
    if !ends_with_sep(mm.out) {
        assert(out =~= mm.out.push(';').push(' '));
        assert(forall|i: int| 0 <= i < mm.out.len() ==> out[i] == mm.out[i]);
    }
    assert(line_chars(out));
    assert(no_space_run(out));
    assert(seps_spaced(out));
    assert(hash_guarded(out));
    assert(no_leading_space(out));
    assert(ends_with_sep(out));
    let n = out.len() as int;
    assert(n >= 2);
    // The output is one line: scanning it back reproduces it.
    lemma_line_end_props(out, 0);
    assert(line_end(out, 0) == n);
    let m0 = init_machine();
    assert(join_line(m0, true) == m0);
    assert(m0.out =~= out.subrange(0, 0));
    lemma_rescan_verbatim(out, 0, m0);
    assert(do_line(m0, out, 0, n, true) == scan_from(m0, out, 0, n, false));
    assert(bundle_from(m0, out, 0, true) == Some(scan_from(m0, out, 0, n, false)));
    assert(bundle_spec(out) == Some(finalize(scan_from(m0, out, 0, n, false).out)));
    assert(finalize(out) == out);
}

} // verus!

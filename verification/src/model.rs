//! The mathematical model of the line-bundling scanner.
//!
//! The scanner is a deterministic machine that walks the input one line at a
//! time and, within a line, one character at a time.  Its state is the active
//! lexical [`Context`], two nesting counters (parameter-expansion braces and
//! array-literal parentheses), a three-character look-back register over the
//! *emitted* text, and the output built so far.  Everything here is
//! specification code; the executable scanner in [`crate::bundler`] is proved
//! to follow these functions step by step.

use vstd::prelude::*;

verus! {

/// The lexical context governing how the next input character is read.
#[derive(Clone, Copy, Debug, PartialEq, Eq, Structural)]
pub enum Context {
    /// Ordinary statement text.
    Normal,
    /// The previous line was blank or a comment; it contributes nothing.
    EmptyLine,
    /// Inside a `"`-delimited string; characters pass through verbatim.
    DoubleQuoteString,
    /// Inside a `'`-delimited string; characters pass through verbatim.
    SingleQuoteString,
    /// Inside a `${...}` parameter expansion; must close on the same line.
    ParamExpansion,
}

/// The full state of the scanner.
///
/// `prev`, `pre_prev` and `third` form the look-back register: the last three
/// characters pushed to the output, most recent first.  The register is
/// shifted, not recomputed, when already-emitted output is revised, so after a
/// revision `third` may hold a placeholder space rather than the true
/// third-to-last output character; decisions only ever read `prev` and
/// `pre_prev`.
#[verifier::ext_equal]
pub struct Machine {
    pub ctx: Context,
    pub prev: char,
    pub pre_prev: char,
    pub third: char,
    pub braces: int,
    pub parens: int,
    pub out: Seq<char>,
}

/// The scanner's state before any input has been read.
pub open spec fn init_machine() -> Machine {
    Machine {
        ctx: Context::Normal,
        prev: ' ',
        pre_prev: ' ',
        third: ' ',
        braces: 0,
        parens: 0,
        out: Seq::empty(),
    }
}

/// Append one character to the output and shift it into the register.
pub open spec fn emit(m: Machine, c: char) -> Machine {
    Machine {
        prev: c,
        pre_prev: m.prev,
        third: m.pre_prev,
        out: m.out.push(c),
        ..m
    }
}

/// Remove the most recently emitted character, shifting the register back.
/// On an empty output only the register moves, as with popping an empty
/// string buffer.
pub open spec fn unemit(m: Machine) -> Machine {
    Machine {
        prev: m.pre_prev,
        pre_prev: m.third,
        third: ' ',
        out: if m.out.len() == 0 {
            m.out
        } else {
            m.out.drop_last()
        },
        ..m
    }
}

/// The line-join policy, applied once at the start of every input line to
/// glue the new line onto the output emitted so far.
///
/// A blank or comment line is discarded; a string context reproduces the line
/// break verbatim; otherwise the last emitted character decides whether a
/// trailing space is repaired into `; `, a trailing line-continuation `\` is
/// dropped, a `;;` pair is kept apart, an opening `{`/`(` gets a plain space,
/// or an ordinary `; ` statement separator is inserted (a bare space inside
/// an array literal).
pub open spec fn join_line(m: Machine, first: bool) -> Machine {
    match m.ctx {
        Context::EmptyLine => Machine { ctx: Context::Normal, ..m },
        Context::DoubleQuoteString => emit(m, '\n'),
        Context::SingleQuoteString => emit(m, '\n'),
        _ => {
            if m.prev == ' ' {
                if m.parens == 0 && !first && m.pre_prev != ';' {
                    emit(emit(unemit(m), ';'), ' ')
                } else {
                    m
                }
            } else if m.prev == '\\' {
                if m.pre_prev == ' ' {
                    unemit(m)
                } else {
                    m
                }
            } else if m.prev == ';' {
                if m.pre_prev == ';' {
                    emit(m, ' ')
                } else {
                    m
                }
            } else if m.prev == '{' || m.prev == '(' {
                emit(m, ' ')
            } else {
                if m.parens == 0 {
                    emit(emit(m, ';'), ' ')
                } else {
                    emit(m, ' ')
                }
            }
        },
    }
}

/// The outcome of reading one character: the new state, whether a real
/// (non-space, non-comment) character has been reached on this line, and
/// whether the rest of the line is to be skipped.
pub struct Step {
    pub m: Machine,
    pub reached: bool,
    pub stop: bool,
}

/// One character in `Normal` context.
pub open spec fn scan_normal(m: Machine, c: char, reached: bool) -> Step {
    if c == '#' {
        if m.prev == '$' || m.prev == '\\' {
            // `$#` or an escaped `#`: ordinary content.
            Step { m: emit(m, '#'), reached, stop: false }
        } else if !reached {
            // Comment-only line: treat the whole line as blank.
            Step { m: Machine { ctx: Context::EmptyLine, ..m }, reached, stop: true }
        } else {
            // Trailing comment: close the statement and drop the rest.
            let m1 = if m.prev == ' ' {
                unemit(m)
            } else {
                m
            };
            let m2 = if m.parens == 0 {
                emit(m1, ';')
            } else {
                m1
            };
            Step { m: emit(m2, ' '), reached, stop: true }
        }
    } else if c == ' ' {
        if reached && m.prev != ' ' {
            Step { m: emit(m, ' '), reached, stop: false }
        } else {
            Step { m, reached, stop: false }
        }
    } else if c == '"' {
        Step {
            m: emit(Machine { ctx: Context::DoubleQuoteString, ..m }, '"'),
            reached: true,
            stop: false,
        }
    } else if c == '\'' {
        Step {
            m: emit(Machine { ctx: Context::SingleQuoteString, ..m }, '\''),
            reached: true,
            stop: false,
        }
    } else if c == '{' {
        let m1 = if m.prev == '$' {
            Machine { ctx: Context::ParamExpansion, braces: m.braces + 1, ..m }
        } else {
            m
        };
        Step { m: emit(m1, '{'), reached: true, stop: false }
    } else if c == '(' {
        let m1 = if m.prev == '=' || m.parens > 0 {
            Machine { parens: m.parens + 1, ..m }
        } else {
            m
        };
        Step { m: emit(m1, '('), reached: true, stop: false }
    } else if c == ')' {
        let m1 = if m.parens > 0 {
            Machine { parens: m.parens - 1, ..m }
        } else {
            m
        };
        Step { m: emit(m1, ')'), reached: true, stop: false }
    } else {
        Step { m: emit(m, c), reached: true, stop: false }
    }
}

/// One character inside a quoted string delimited by `quote`.  The matching
/// quote closes the string unless the previously emitted character was `\`.
pub open spec fn scan_quoted(m: Machine, c: char, quote: char) -> Machine {
    if c == quote && m.prev != '\\' {
        emit(Machine { ctx: Context::Normal, ..m }, c)
    } else {
        emit(m, c)
    }
}

/// One character inside a `${...}` parameter expansion.  Braces nest; the
/// context closes exactly when the depth returns to zero.
pub open spec fn scan_expansion(m: Machine, c: char) -> Machine {
    if c == '{' {
        emit(Machine { braces: m.braces + 1, ..m }, c)
    } else if c == '}' {
        let b = m.braces - 1;
        emit(
            Machine {
                braces: b,
                ctx: if b == 0 {
                    Context::Normal
                } else {
                    m.ctx
                },
                ..m
            },
            c,
        )
    } else {
        emit(m, c)
    }
}

/// One character, dispatched on the active context.
pub open spec fn scan_char(m: Machine, c: char, reached: bool) -> Step {
    match m.ctx {
        Context::Normal => scan_normal(m, c, reached),
        Context::DoubleQuoteString => Step { m: scan_quoted(m, c, '"'), reached, stop: false },
        Context::SingleQuoteString => Step { m: scan_quoted(m, c, '\''), reached, stop: false },
        Context::ParamExpansion => Step { m: scan_expansion(m, c), reached, stop: false },
        Context::EmptyLine => Step { m, reached, stop: false },
    }
}

/// Scan the characters `s[i..e]` of one line, stopping early when a step
/// says so (a comment swallows the rest of its line).
pub open spec fn scan_from(m: Machine, s: Seq<char>, i: int, e: int, reached: bool) -> Machine
    decreases e - i,
{
    if i < e {
        let st = scan_char(m, s[i], reached);
        if st.stop {
            st.m
        } else {
            scan_from(st.m, s, i + 1, e, st.reached)
        }
    } else {
        m
    }
}

/// The position of the first line break at or after `i`, or the length of
/// `s` when the rest of the input is a single line.
pub open spec fn line_end(s: Seq<char>, i: int) -> int
    decreases s.len() - i,
{
    if i < 0 || i >= s.len() {
        s.len() as int
    } else if s[i] == '\n' {
        i
    } else {
        line_end(s, i + 1)
    }
}

/// Process one whole line `s[i..e]`: apply the join policy, then either mark
/// a blank line or scan the line's characters.
pub open spec fn do_line(m: Machine, s: Seq<char>, i: int, e: int, first: bool) -> Machine {
    let m1 = join_line(m, first);
    if m1.ctx is Normal && i >= e {
        Machine { ctx: Context::EmptyLine, ..m1 }
    } else {
        scan_from(m1, s, i, e, false)
    }
}

/// Run the machine over every line of `s[i..]`.  `None` is the single fatal
/// condition: a `${...}` parameter expansion left open at a line break.
pub open spec fn bundle_from(m: Machine, s: Seq<char>, i: int, first: bool) -> Option<Machine>
    decreases s.len() - i,
    via bundle_from_decreases
{
    if i >= s.len() {
        Some(m)
    } else if m.braces > 0 {
        None
    } else {
        let e = line_end(s, i);
        let m1 = do_line(m, s, i, e, first);
        if e >= s.len() {
            Some(m1)
        } else {
            bundle_from(m1, s, e + 1, false)
        }
    }
}

#[via_fn]
proof fn bundle_from_decreases(m: Machine, s: Seq<char>, i: int, first: bool) {
    if 0 <= i < s.len() {
        lemma_line_end_bounds(s, i);
    }
}

/// Whether the output already ends in the two-character separator `; `.
pub open spec fn ends_with_sep(out: Seq<char>) -> bool {
    out.len() >= 2 && out[out.len() - 2] == ';' && out[out.len() - 1] == ' '
}

/// Guarantee a clean `; ` statement boundary at the very end of the output.
pub open spec fn finalize(out: Seq<char>) -> Seq<char> {
    if ends_with_sep(out) {
        out
    } else {
        out.push(';').push(' ')
    }
}

/// The bundling transform: the finished output text for input `s`, or `None`
/// when a parameter expansion spans a line break.
pub open spec fn bundle_spec(s: Seq<char>) -> Option<Seq<char>> {
    match bundle_from(init_machine(), s, 0, true) {
        Some(m) => Some(finalize(m.out)),
        None => None,
    }
}

/// `line_end` stays within the input and is never before its start.
pub proof fn lemma_line_end_bounds(s: Seq<char>, i: int)
    requires
        0 <= i <= s.len(),
    ensures
        i <= line_end(s, i) <= s.len(),
    decreases s.len() - i,
{
    if i < s.len() && s[i] != '\n' {
        lemma_line_end_bounds(s, i + 1);
    }
}

/// Everything strictly before `line_end` is an ordinary character, and the
/// position `line_end` itself, when inside the input, holds the line break.
pub proof fn lemma_line_end_props(s: Seq<char>, i: int)
    requires
        0 <= i <= s.len(),
    ensures
        i <= line_end(s, i) <= s.len(),
        forall|k: int| i <= k < line_end(s, i) ==> s[k] != '\n',
        line_end(s, i) < s.len() ==> s[line_end(s, i)] == '\n',
    decreases s.len() - i,
{
    if i < s.len() && s[i] != '\n' {
        lemma_line_end_props(s, i + 1);
    }
}

} // verus!

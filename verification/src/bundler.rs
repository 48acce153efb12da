//! The executable scanner, proved equal to the machine of [`crate::model`].

use vstd::prelude::*;
use vstd::string::StrSliceExecFns;

use crate::history::History;
use crate::model::{
    bundle_from, bundle_spec, do_line, emit, finalize, init_machine, join_line,
    lemma_line_end_props, line_end, scan_char, scan_from, unemit, Context, Machine, Step,
};

verus! {

/// The scanner's executable state; its view is the model [`Machine`].
pub struct Bundler {
    pub ctx: Context,
    pub hist: History,
    pub braces: usize,
    pub parens: usize,
    pub out: Vec<char>,
}

impl View for Bundler {
    type V = Machine;

    open spec fn view(&self) -> Machine {
        Machine {
            ctx: self.ctx,
            prev: self.hist.c0,
            pre_prev: self.hist.c1,
            third: self.hist.c2,
            braces: self.braces as int,
            parens: self.parens as int,
            out: self.out@,
        }
    }
}

impl Bundler {
    /// A scanner in its initial state.
    pub fn new() -> (b: Bundler)
        ensures
            b@ == init_machine(),
    {
        let b = Bundler {
            ctx: Context::Normal,
            hist: History::new(),
            braces: 0,
            parens: 0,
            out: Vec::new(),
        };
        proof {
            assert(b@ =~= init_machine());
        }
        b
    }

    /// Append one character to the output and the register.
    fn emit_char(&mut self, c: char)
        ensures
            final(self)@ == emit(old(self)@, c),
    {
        self.out.push(c);
        self.hist.ppush(c);
    }

    /// Take back the most recently emitted character.
    fn unemit_char(&mut self)
        ensures
            final(self)@ == unemit(old(self)@),
    {
        if self.out.len() > 0 {
            self.out.pop();
        }
        self.hist.ppop();
        proof {
            assert(self@ =~= unemit(old(self)@));
        }
    }

    /// Apply the line-join policy at the start of a line.
    pub fn begin_line(&mut self, first: bool)
        ensures
            final(self)@ == join_line(old(self)@, first),
    {
        match self.ctx {
            Context::EmptyLine => {
                self.ctx = Context::Normal;
                proof {
                    assert(self@ =~= join_line(old(self)@, first));
                }
            },
            Context::DoubleQuoteString | Context::SingleQuoteString => {
                self.emit_char('\n');
            },
            _ => {
                let p = self.hist.prev();
                if p == ' ' {
                    if self.parens == 0 && !first && self.hist.pre_prev() != ';' {
                        self.unemit_char();
                        self.emit_char(';');
                        self.emit_char(' ');
                    }
                } else if p == '\\' {
                    if self.hist.pre_prev() == ' ' {
                        self.unemit_char();
                    }
                } else if p == ';' {
                    if self.hist.pre_prev() == ';' {
                        self.emit_char(' ');
                    }
                } else if p == '{' || p == '(' {
                    self.emit_char(' ');
                } else {
                    if self.parens == 0 {
                        self.emit_char(';');
                    }
                    self.emit_char(' ');
                }
            },
        }
    }

    /// Record that the current line is blank.
    pub fn mark_empty(&mut self)
        ensures
            final(self)@ == (Machine { ctx: Context::EmptyLine, ..old(self)@ }),
    {
        self.ctx = Context::EmptyLine;
        proof {
            assert(self@ =~= (Machine { ctx: Context::EmptyLine, ..old(self)@ }));
        }
    }

    /// Read one character.  Returns the updated `reached` flag and whether
    /// the rest of the line is to be skipped.
    pub fn step(&mut self, c: char, reached: bool) -> (r: (bool, bool))
        requires
            old(self)@.braces < usize::MAX,
            old(self)@.parens < usize::MAX,
            old(self)@.ctx is ParamExpansion ==> old(self)@.braces >= 1,
        ensures
            scan_char(old(self)@, c, reached) == (Step {
                m: final(self)@,
                reached: r.0,
                stop: r.1,
            }),
    {
        match self.ctx {
            Context::Normal => {
                if c == '#' {
                    let p = self.hist.prev();
                    if p == '$' || p == '\\' {
                        self.emit_char('#');
                        (reached, false)
                    } else if !reached {
                        self.ctx = Context::EmptyLine;
                        proof {
                            assert(self@ =~= scan_char(old(self)@, c, reached).m);
                        }
                        (reached, true)
                    } else {
                        if p == ' ' {
                            self.unemit_char();
                        }
                        if self.parens == 0 {
                            self.emit_char(';');
                        }
                        self.emit_char(' ');
                        (reached, true)
                    }
                } else if c == ' ' {
                    if reached && self.hist.prev() != ' ' {
                        self.emit_char(' ');
                    }
                    (reached, false)
                } else if c == '"' {
                    self.ctx = Context::DoubleQuoteString;
                    self.emit_char('"');
                    (true, false)
                } else if c == '\'' {
                    self.ctx = Context::SingleQuoteString;
                    self.emit_char('\'');
                    (true, false)
                } else if c == '{' {
                    if self.hist.prev() == '$' {
                        self.braces = self.braces + 1;
                        self.ctx = Context::ParamExpansion;
                    }
                    self.emit_char('{');
                    (true, false)
                } else if c == '(' {
                    if self.hist.prev() == '=' || self.parens > 0 {
                        self.parens = self.parens + 1;
                    }
                    self.emit_char('(');
                    (true, false)
                } else if c == ')' {
                    if self.parens > 0 {
                        self.parens = self.parens - 1;
                    }
                    self.emit_char(')');
                    (true, false)
                } else {
                    self.emit_char(c);
                    (true, false)
                }
            },
            Context::DoubleQuoteString => {
                if c == '"' && self.hist.prev() != '\\' {
                    self.ctx = Context::Normal;
                }
                self.emit_char(c);
                (reached, false)
            },
            Context::SingleQuoteString => {
                if c == '\'' && self.hist.prev() != '\\' {
                    self.ctx = Context::Normal;
                }
                self.emit_char(c);
                (reached, false)
            },
            Context::ParamExpansion => {
                if c == '{' {
                    self.braces = self.braces + 1;
                } else if c == '}' {
                    self.braces = self.braces - 1;
                    if self.braces == 0 {
                        self.ctx = Context::Normal;
                    }
                }
                self.emit_char(c);
                (reached, false)
            },
            Context::EmptyLine => (reached, false),
        }
    }

    /// Consume the scanner and return its output, normalized to end in the
    /// statement separator `; `.
    pub fn into_output(self) -> (r: Vec<char>)
        ensures
            r@ == finalize(self@.out),
    {
        let mut out = self.out;
        let n = out.len();
        let done = n >= 2 && out[n - 2] == ';' && out[n - 1] == ' ';
        if !done {
            out.push(';');
            out.push(' ');
        }
        out
    }
}

/// The characters of a string slice, in order.
fn chars_of(s: &str) -> (v: Vec<char>)
    ensures
        v@ == s@,
{
    let n = s.unicode_len();
    let mut v: Vec<char> = Vec::new();
    let mut i: usize = 0;
    while i < n
        invariant
            n == s@.len(),
            i <= n,
            v@ =~= s@.subrange(0, i as int),
        decreases n - i,
    {
        v.push(s.get_char(i));
        i = i + 1;
    }
    proof {
        assert(v@ =~= s@);
    }
    v
}

/// Relies on `String::push`: appends exactly the given character to the
/// string.
#[verifier::external_body]
fn push_char(s: &mut String, c: char)
    ensures
        final(s)@ == old(s)@.push(c),
{
    s.push(c);
}

/// A string holding exactly the given characters.
fn string_of(v: &Vec<char>) -> (s: String)
    ensures
        s@ == v@,
{
    let mut s = String::new();
    let mut i: usize = 0;
    while i < v.len()
        invariant
            i <= v@.len(),
            s@ =~= v@.subrange(0, i as int),
        decreases v@.len() - i,
    {
        push_char(&mut s, v[i]);
        i = i + 1;
    }
    proof {
        assert(s@ =~= v@);
    }
    s
}

/// Bundle multi-line script text into one logical line, or report the one
/// fatal condition: a `${...}` parameter expansion still open when a line
/// break arrives.
pub fn try_bundle_lines(lines: String) -> (r: Option<String>)
    ensures
        r is Some <==> bundle_spec(lines@) is Some,
        r matches Some(out) ==> Some(out@) == bundle_spec(lines@),
{
    let v = chars_of(lines.as_str());
    let n = v.len();
    let mut b = Bundler::new();
    let mut pos: usize = 0;
    let mut first: bool = true;
    while pos < n
        invariant
            n == v@.len(),
            v@ == lines@,
            pos <= n,
            b@.braces + b@.parens <= pos as int,
            b@.ctx is ParamExpansion ==> b@.braces >= 1,
            bundle_from(init_machine(), v@, 0, true) == bundle_from(b@, v@, pos as int, first),
        decreases n - pos,
    {
        if b.braces > 0 {
            proof {
                assert(bundle_from(b@, v@, pos as int, first) is None);
            }
            return None;
        }
        let ghost m0 = b@;
        b.begin_line(first);
        let ghost mjoin = b@;
        let ghost e = line_end(v@, pos as int);
        proof {
            lemma_line_end_props(v@, pos as int);
        }
        if v[pos] == '\n' {
            // A blank line: the join policy already ran; nothing is scanned.
            match b.ctx {
                Context::Normal => b.mark_empty(),
                _ => {},
            }
            proof {
                assert(e == pos as int);
                assert(do_line(m0, v@, pos as int, e, first) == b@);
                assert(bundle_from(m0, v@, pos as int, first) == bundle_from(
                    b@,
                    v@,
                    pos as int + 1,
                    false,
                ));
            }
            pos = pos + 1;
            first = false;
        } else {
            let ghost target = scan_from(mjoin, v@, pos as int, e, false);
            let mut reached: bool = false;
            let mut j: usize = pos;
            let mut stopped: bool = false;
            while j < n && v[j] != '\n'
                invariant_except_break
                    n == v@.len(),
                    pos as int <= j as int <= e,
                    e == line_end(v@, pos as int),
                    e <= n,
                    e < n ==> v@[e] == '\n',
                    forall|k: int| pos as int <= k < e ==> v@[k] != '\n',
                    !stopped,
                    b@.braces + b@.parens <= j as int,
                    b@.ctx is ParamExpansion ==> b@.braces >= 1,
                    scan_from(b@, v@, j as int, e, reached) == target,
                ensures
                    b@ == target,
                    pos as int <= j as int <= e <= n,
                    b@.braces + b@.parens <= e,
                    b@.ctx is ParamExpansion ==> b@.braces >= 1,
                    !stopped ==> j as int == e,
                decreases e - j,
            {
                proof {
                    if j as int == e {
                        assert(v@[e] == '\n');
                    }
                }
                let c = v[j];
                let r = b.step(c, reached);
                reached = r.0;
                if r.1 {
                    stopped = true;
                    break;
                }
                j = j + 1;
            }
            if stopped {
                // A comment swallowed the rest of the line; find its end.
                while j < n && v[j] != '\n'
                    invariant
                        n == v@.len(),
                        pos as int <= j as int <= e <= n,
                        e == line_end(v@, pos as int),
                        e < n ==> v@[e] == '\n',
                        forall|k: int| pos as int <= k < e ==> v@[k] != '\n',
                    decreases n - j,
                {
                    proof {
                        if j as int == e {
                            assert(v@[e] == '\n');
                        }
                    }
                    j = j + 1;
                }
            }
            proof {
                assert(j as int == e);
                assert((pos as int) < e);
                assert(do_line(m0, v@, pos as int, e, first) == b@);
            }
            if j == n {
                proof {
                    assert(bundle_from(m0, v@, pos as int, first) == Some(b@));
                }
                pos = j;
            } else {
                proof {
                    assert(bundle_from(m0, v@, pos as int, first) == bundle_from(
                        b@,
                        v@,
                        e + 1,
                        false,
                    ));
                }
                pos = j + 1;
            }
            first = false;
        }
    }
    proof {
        assert(bundle_from(b@, v@, pos as int, first) == Some(b@));
    }
    let ghost mfin = b@;
    let out = b.into_output();
    let s = string_of(&out);
    proof {
        assert(bundle_spec(lines@) == Some(s@));
    }
    Some(s)
}

/// Bundle multi-line script text into one logical line of statements.
///
/// The input must not leave a `${...}` parameter expansion open across a
/// line break; [`try_bundle_lines`] reports that case as `None` instead.
pub fn bundle_lines(lines: String) -> (result: String)
    requires
        bundle_spec(lines@) is Some,
    ensures
        Some(result@) == bundle_spec(lines@),
{
    let r = try_bundle_lines(lines);
    r.unwrap()
}

} // verus!

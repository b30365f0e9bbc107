//! The tokenizer state machine: owns the indentation stack, the bracket
//! depth, the continued-line flag and the multi-line string continuation
//! record, drives the lexeme classifier over each physical line, and emits
//! the token sequence or a fatal error.

use crate::chars::is_close_bracket;
use crate::chars::is_open_bracket;
use crate::chars::CharClass;
use crate::scan::lemma_lex_at_bounds;
use crate::scan::lemma_skip_class_range;
use crate::scan::scan_at;
use crate::scan::scan_class;
use crate::scan::skip_class;
use crate::scan::spec_scan;
use crate::scan::LexCat;
use crate::scan::ScanStep;
use crate::strscan::find_terminator;
use crate::strscan::lemma_term_scan_bounds;
use crate::strscan::term_scan;
use crate::token::count_kind;
use crate::token::lemma_count_kind_push;
use crate::token::lemma_shapes_push;
use crate::token::shape_of;
use crate::token::shapes_of;
use crate::token::tok_shape;
use crate::token::Position;
use crate::token::TokShape;
use crate::token::Token;
use crate::token::TokenKind;
use crate::token::TokenizeError;
use vstd::prelude::*;
use vstd::string::StrSliceExecFns;

verus! {

// ---------------------------------------------------------------------------
// Character-vector utilities
// ---------------------------------------------------------------------------

/// The characters of a string slice, as a vector.
#[verifier::loop_isolation(false)]
pub fn chars_of(input: &str) -> (r: Vec<char>)
    ensures
        r@ == input@,
{
    let n = input.unicode_len();
    let mut v: Vec<char> = Vec::new();
    let mut i: usize = 0;
    while i < n
        invariant
            i <= n,
            v@.len() == i,
            forall|k: int| 0 <= k < i ==> v@[k] == input@[k],
        decreases n - i,
    {
        let c = input.get_char(i);
        v.push(c);
        i = i + 1;
    }
    proof {
        assert(v@ =~= input@);
    }
    v
}

/// A fresh copy of `src[lo..hi]`.
#[verifier::loop_isolation(false)]
pub fn copy_range(src: &Vec<char>, lo: usize, hi: usize) -> (r: Vec<char>)
    requires
        lo <= hi <= src@.len(),
    ensures
        r@ == src@.subrange(lo as int, hi as int),
{
    let mut v: Vec<char> = Vec::new();
    let mut i: usize = lo;
    while i < hi
        invariant
            lo <= i <= hi,
            v@.len() == i - lo,
            forall|k: int| 0 <= k < v@.len() ==> v@[k] == src@[lo + k],
        decreases hi - i,
    {
        v.push(src[i]);
        i = i + 1;
    }
    proof {
        assert(v@ =~= src@.subrange(lo as int, hi as int));
    }
    v
}

/// A fresh vector holding `a` followed by `b[..hi]`.
#[verifier::loop_isolation(false)]
pub fn concat_prefix(a: &Vec<char>, b: &Vec<char>, hi: usize) -> (r: Vec<char>)
    requires
        hi <= b@.len(),
    ensures
        r@ == a@ + b@.subrange(0, hi as int),
{
    let mut v = copy_range(a, 0, a.len());
    proof {
        assert(v@ =~= a@);
    }
    let mut i: usize = 0;
    while i < hi
        invariant
            i <= hi,
            v@ == a@ + b@.subrange(0, i as int),
        decreases hi - i,
    {
        v.push(b[i]);
        proof {
            assert(v@ =~= a@ + b@.subrange(0, (i + 1) as int));
        }
        i = i + 1;
    }
    v
}

/// Append all of `src` to `dst`.
#[verifier::loop_isolation(false)]
pub fn extend_chars(dst: &mut Vec<char>, src: &Vec<char>)
    ensures
        final(dst)@ == old(dst)@ + src@,
{
    let n = src.len();
    let mut i: usize = 0;
    while i < n
        invariant
            i <= n,
            dst@ == old(dst)@ + src@.subrange(0, i as int),
        decreases n - i,
    {
        dst.push(src[i]);
        proof {
            assert(dst@ =~= old(dst)@ + src@.subrange(0, (i + 1) as int));
        }
        i = i + 1;
    }
    proof {
        assert(old(dst)@ + src@.subrange(0, n as int) =~= old(dst)@ + src@);
    }
}

// ---------------------------------------------------------------------------
// Physical line segmentation
// ---------------------------------------------------------------------------

/// The end of the physical line beginning at `i`: just past the first
/// newline at or after `i`, or the end of the input for a final line without
/// a terminator.
pub open spec fn line_end_from(s: Seq<char>, i: int) -> int
    decreases s.len() - i when i <= s.len()
{
    if i >= s.len() {
        s.len() as int
    } else if s[i] == '\n' {
        i + 1
    } else {
        line_end_from(s, i + 1)
    }
}

#[verifier::loop_isolation(false)]
pub fn next_line_end(s: &Vec<char>, i: usize) -> (e: usize)
    requires
        i < s@.len(),
    ensures
        e == line_end_from(s@, i as int),
        i < e <= s@.len(),
{
    let n = s.len();
    let mut j: usize = i;
    loop
        invariant
            i <= j <= n,
            line_end_from(s@, i as int) == line_end_from(s@, j as int),
        decreases n - j,
    {
        if j >= n {
            return j;
        }
        if s[j] == '\n' {
            return j + 1;
        }
        j = j + 1;
    }
}

// ---------------------------------------------------------------------------
// Indentation measurement
// ---------------------------------------------------------------------------

/// How one leading character moves the indentation column: a space advances
/// it by one, a tab advances it to the next multiple of 8, a form feed
/// resets it to zero.
pub open spec fn col_step(col: int, c: char) -> int {
    if c == ' ' {
        col + 1
    } else if c == '\t' {
        (col / 8 + 1) * 8
    } else if c == '\u{c}' {
        0
    } else {
        col
    }
}

/// The indentation column after the first `i` characters of a line.
pub open spec fn col_of(line: Seq<char>, i: int) -> int
    decreases i when 0 <= i
{
    if i <= 0 {
        0
    } else {
        col_step(col_of(line, i - 1), line[i - 1])
    }
}

/// Where the leading whitespace of a line ends.
pub open spec fn indent_pos(line: Seq<char>) -> int {
    skip_class(line, 0, CharClass::Space)
}

/// The indentation column of a line.
pub open spec fn indent_width(line: Seq<char>) -> int {
    col_of(line, indent_pos(line))
}

/// The line is blank or comment-only at its logical start: after the
/// indentation comes a comment or a line terminator.
pub open spec fn blankish(line: Seq<char>) -> bool {
    let p = indent_pos(line);
    p < line.len() && (line[p] == '#' || line[p] == '\r' || line[p] == '\n')
}

/// Whether the indentation stack holds the column `x`.
#[verifier::loop_isolation(false)]
fn stack_contains(v: &Vec<usize>, x: usize) -> (r: bool)
    ensures
        r == v@.contains(x),
{
    let n = v.len();
    let mut i: usize = 0;
    while i < n
        invariant
            i <= n,
            forall|k: int| 0 <= k < i ==> v@[k] != x,
        decreases n - i,
    {
        if v[i] == x {
            proof {
                assert(v@[i as int] == x);
            }
            return true;
        }
        i = i + 1;
    }
    proof {
        assert(!v@.contains(x)) by {
            if v@.contains(x) {
                let k = choose|k: int| 0 <= k < v@.len() && v@[k] == x;
                assert(v@[k] != x);
            }
        }
    }
    false
}

/// Measure the indentation of a line: its column and the offset of the
/// first character that is not indentation whitespace.
#[verifier::loop_isolation(false)]
pub fn measure_indent(line: &Vec<char>) -> (r: (usize, usize))
    requires
        8 * line@.len() + 8 <= usize::MAX,
    ensures
        r.1 == indent_pos(line@),
        r.0 == indent_width(line@),
        r.1 <= line@.len(),
{
    let n = line.len();
    let mut j: usize = 0;
    let mut col: usize = 0;
    loop
        invariant
            j <= n,
            col == col_of(line@, j as int),
            col <= 8 * j + 8,
            skip_class(line@, 0, CharClass::Space) == skip_class(line@, j as int, CharClass::Space),
        decreases n - j,
    {
        if j >= n {
            return (col, j);
        }
        let c = line[j];
        if c == ' ' {
            col = col + 1;
        } else if c == '\t' {
            proof {
                assert((col / 8) * 8 <= col) by (nonlinear_arith);
            }
            col = (col / 8 + 1) * 8;
        } else if c == '\u{c}' {
            col = 0;
        } else {
            return (col, j);
        }
        j = j + 1;
    }
}

// ---------------------------------------------------------------------------
// The machine state
// ---------------------------------------------------------------------------

/// The continuation record of a string literal that is still open at the
/// end of a physical line: the partial text and physical-line concatenation
/// accumulated so far, the literal's start position, and its quote family.
/// `triple` distinguishes a true triple-quote continuation from a
/// single-quote literal whose line ended before it closed.
pub struct ContState {
    pub text: Vec<char>,
    pub line_acc: Vec<char>,
    pub start: Position,
    pub quote: char,
    pub triple: bool,
}

/// The whole tokenizer state: the tokens emitted so far, the bracket depth,
/// the continued-line flag, the indentation stack, and the optional string
/// continuation record.
pub struct Tokenizer {
    pub out: Vec<Token>,
    pub parenlev: usize,
    pub continued: bool,
    pub indents: Vec<usize>,
    pub cont: Option<ContState>,
}

/// The indentation stack invariant: never empty, bottom entry zero,
/// strictly increasing upward.
pub open spec fn wf_indents(s: Seq<usize>) -> bool {
    &&& s.len() >= 1
    &&& s[0] == 0usize
    &&& forall|a: int, b: int| 0 <= a < b < s.len() ==> s[a] < s[b]
}

/// The line does not end in a backslash immediately followed by its
/// terminator, so a single-quote continuation contract is broken on it.
pub open spec fn ends_backslash_nl(line: Seq<char>) -> bool {
    let n = line.len() as int;
    ||| (n >= 2 && line[n - 1] == '\n' && line[n - 2] == '\\')
    ||| (n >= 3 && line[n - 1] == '\n' && line[n - 2] == '\r' && line[n - 3] == '\\')
}

fn ends_bsnl_exec(line: &Vec<char>) -> (r: bool)
    ensures
        r == ends_backslash_nl(line@),
{
    let n = line.len();
    (n >= 2 && line[n - 1] == '\n' && line[n - 2] == '\\') || (n >= 3 && line[n - 1] == '\n'
        && line[n - 2] == '\r' && line[n - 3] == '\\')
}

/// The ghost image of a continuation record.
pub struct ContShape {
    pub text: Seq<char>,
    pub line_acc: Seq<char>,
    pub start: Position,
    pub quote: char,
    pub triple: bool,
}

pub open spec fn cont_shape_of(c: ContState) -> ContShape {
    ContShape {
        text: c.text@,
        line_acc: c.line_acc@,
        start: c.start,
        quote: c.quote,
        triple: c.triple,
    }
}

pub open spec fn cont_image(c: Option<ContState>) -> Option<ContShape> {
    match c {
        Option::None => Option::None,
        Option::Some(c) => Option::Some(cont_shape_of(c)),
    }
}

pub open spec fn cont_shapes_match(c: Option<ContState>, s: Option<ContShape>) -> bool {
    cont_image(c) == s
}

/// What scanning the rest of one line yields: the token shapes emitted in
/// order, the bracket depth and continued-line flag afterwards, and the
/// string continuation opened, if any.
pub struct LineOut {
    pub toks: Seq<TokShape>,
    pub parenlev: usize,
    pub continued: bool,
    pub cont: Option<ContShape>,
}

pub open spec fn cons_tok(t: TokShape, o: LineOut) -> LineOut {
    LineOut { toks: seq![t] + o.toks, parenlev: o.parenlev, continued: o.continued, cont: o.cont }
}

pub open spec fn glue_out(ts: Seq<TokShape>, o: LineOut) -> LineOut {
    LineOut { toks: ts + o.toks, parenlev: o.parenlev, continued: o.continued, cont: o.cont }
}

/// The shape of a token of kind `k` spanning `line[s..e]`.
pub open spec fn span_shape(line: Seq<char>, lnum: usize, k: TokenKind, s: int, e: int) -> TokShape {
    TokShape {
        kind: k,
        text: line.subrange(s, e),
        start: Position { line: lnum, col: s as usize },
        end: Position { line: lnum, col: e as usize },
        line: line,
    }
}

/// The lexeme scan of one physical line from `pos` on, as a function: what
/// `Tokenizer::scan_line` emits and how it leaves the scanning state.
pub open spec fn line_scan(
    line: Seq<char>,
    lnum: usize,
    pos: int,
    parenlev: usize,
    continued: bool,
) -> LineOut
    decreases line.len() - pos
        when 0 <= pos && pos <= line.len() && line.len() <= usize::MAX
        via line_scan_dec
{
    if pos >= line.len() {
        LineOut { toks: Seq::empty(), parenlev, continued, cont: None }
    } else {
        match spec_scan(line, pos) {
            ScanStep::OnlySpace => LineOut { toks: Seq::empty(), parenlev, continued, cont: None },
            ScanStep::NoMatch => cons_tok(
                span_shape(line, lnum, TokenKind::ErrorToken, pos, pos + 1),
                line_scan(line, lnum, pos + 1, parenlev, continued),
            ),
            ScanStep::Tok(lx) => {
                let s = lx.start as int;
                let e = lx.end as int;
                match lx.cat {
                    LexCat::Num => cons_tok(
                        span_shape(line, lnum, TokenKind::Number, s, e),
                        line_scan(line, lnum, e, parenlev, continued),
                    ),
                    LexCat::LineEnd => cons_tok(
                        span_shape(
                            line,
                            lnum,
                            if parenlev > 0 {
                                TokenKind::NL
                            } else {
                                TokenKind::Newline
                            },
                            s,
                            e,
                        ),
                        line_scan(line, lnum, e, parenlev, continued),
                    ),
                    LexCat::CommentTok => cons_tok(
                        span_shape(line, lnum, TokenKind::Comment, s, e),
                        line_scan(line, lnum, e, parenlev, continued),
                    ),
                    LexCat::NameTok => cons_tok(
                        span_shape(line, lnum, TokenKind::Name, s, e),
                        line_scan(line, lnum, e, parenlev, continued),
                    ),
                    LexCat::StrDone => cons_tok(
                        span_shape(line, lnum, TokenKind::Str, s, e),
                        line_scan(line, lnum, e, parenlev, continued),
                    ),
                    LexCat::BackslashNl => line_scan(line, lnum, e, parenlev, true),
                    LexCat::OpTok => {
                        let pl = if is_open_bracket(line[s]) {
                            if parenlev < usize::MAX {
                                (parenlev + 1) as usize
                            } else {
                                parenlev
                            }
                        } else if is_close_bracket(line[s]) {
                            if parenlev > 0 {
                                (parenlev - 1) as usize
                            } else {
                                parenlev
                            }
                        } else {
                            parenlev
                        };
                        cons_tok(
                            span_shape(line, lnum, TokenKind::Op, s, e),
                            line_scan(line, lnum, e, pl, continued),
                        )
                    },
                    LexCat::TripleOpen(q) => match term_scan(line, e, q, true) {
                        Some(te) => cons_tok(
                            span_shape(line, lnum, TokenKind::Str, s, te),
                            line_scan(line, lnum, te, parenlev, continued),
                        ),
                        None => LineOut {
                            toks: Seq::empty(),
                            parenlev,
                            continued,
                            cont: Some(
                                ContShape {
                                    text: line.subrange(s, line.len() as int),
                                    line_acc: line,
                                    start: Position { line: lnum, col: s as usize },
                                    quote: q,
                                    triple: true,
                                },
                            ),
                        },
                    },
                    LexCat::StrEol(q) => LineOut {
                        toks: Seq::empty(),
                        parenlev,
                        continued,
                        cont: Some(
                            ContShape {
                                text: line.subrange(s, line.len() as int),
                                line_acc: line,
                                start: Position { line: lnum, col: s as usize },
                                quote: q,
                                triple: false,
                            },
                        ),
                    },
                }
            },
        }
    }
}

#[via_fn]
proof fn line_scan_dec(line: Seq<char>, lnum: usize, pos: int, parenlev: usize, continued: bool) {
    if 0 <= pos && pos < line.len() {
        lemma_skip_class_range(line, pos, CharClass::Space);
        let j = skip_class(line, pos, CharClass::Space);
        if j < line.len() {
            lemma_lex_at_bounds(line, j);
            match spec_scan(line, pos) {
                ScanStep::Tok(lx) => match lx.cat {
                    LexCat::TripleOpen(q) => {
                        lemma_term_scan_bounds(line, lx.end as int, q, true);
                    },
                    _ => {},
                },
                _ => {},
            }
        }
    }
}

proof fn lemma_glue_cons(ts: Seq<TokShape>, t: TokShape, o: LineOut)
    ensures
        glue_out(ts.push(t), o) == glue_out(ts, cons_tok(t, o)),
{
    assert(ts.push(t) + o.toks =~= ts + (seq![t] + o.toks));
}

proof fn lemma_skip_push(pre: Seq<Token>, t: Token, nkeep: int)
    requires
        0 <= nkeep <= pre.len(),
    ensures
        shapes_of(pre.push(t).skip(nkeep)) == shapes_of(pre.skip(nkeep)).push(shape_of(t)),
{
    assert(pre.push(t).skip(nkeep) =~= pre.skip(nkeep).push(t));
    lemma_shapes_push(pre.skip(nkeep), t);
}

proof fn lemma_shapes_split(s: Seq<Token>, k: int)
    requires
        0 <= k <= s.len(),
    ensures
        shapes_of(s) == shapes_of(s.subrange(0, k)) + shapes_of(s.skip(k)),
{
    assert(shapes_of(s) =~= shapes_of(s.subrange(0, k)) + shapes_of(s.skip(k)));
}

proof fn lemma_line_end_bounds(s: Seq<char>, i: int)
    requires
        0 <= i <= s.len(),
    ensures
        i <= line_end_from(s, i) <= s.len(),
        i < s.len() ==> i < line_end_from(s, i),
    decreases s.len() - i,
{
    if i < s.len() && s[i] != '\n' {
        lemma_line_end_bounds(s, i + 1);
    }
}

/// In a strictly increasing stack, the column `x` found at position `l - 1`
/// is the only occurrence, so it is where `index_of` points.
proof fn lemma_increasing_index(s: Seq<usize>, x: usize, l: int)
    requires
        forall|a: int, b: int| 0 <= a < b < s.len() ==> s[a] < s[b],
        0 < l <= s.len(),
        s[l - 1] == x,
    ensures
        s.contains(x),
        s.index_of(x) == l - 1,
{
    assert(s.contains(x));
    let i = s.index_of(x);
    assert(0 <= i < s.len() && s[i] == x);
    if i < l - 1 {
        assert(s[i] < s[l - 1]);
    }
    if i > l - 1 {
        assert(s[l - 1] < s[i]);
    }
}

/// The shape of one zero-width `Dedent` token at column `p`.
pub open spec fn dedent_shape(line: Seq<char>, lnum: usize, p: int) -> TokShape {
    TokShape {
        kind: TokenKind::Dedent,
        text: Seq::empty(),
        start: Position { line: lnum, col: p as usize },
        end: Position { line: lnum, col: p as usize },
        line: line,
    }
}

/// Prefix emitted token shapes onto the outcome of tokenizing the rest of
/// the input.
pub open spec fn prepend_run(
    ts: Seq<TokShape>,
    r: Result<(Seq<TokShape>, Seq<usize>), TokenizeError>,
) -> Result<(Seq<TokShape>, Seq<usize>), TokenizeError> {
    match r {
        Ok(p) => Ok((ts + p.0, p.1)),
        Err(e) => Err(e),
    }
}

/// Scan the line `line` (spanning `[line_start, le)` of the input) from
/// `pos` on, then tokenize the remaining lines from the state the scan left.
pub open spec fn scan_then(
    input: Seq<char>,
    le: int,
    line: Seq<char>,
    lnum2: usize,
    pos: int,
    parenlev: usize,
    continued: bool,
    indents: Seq<usize>,
) -> Result<(Seq<TokShape>, Seq<usize>), TokenizeError>
    decreases input.len() - le, 1int
        when 0 <= le && le <= input.len() && input.len() <= usize::MAX && lnum2 <= le
{
    let lo = line_scan(line, lnum2, pos, parenlev, continued);
    prepend_run(lo.toks, run_scan(input, le, lnum2, lo.parenlev, lo.continued, indents, lo.cont))
}

/// The whole tokenizing pass over the physical lines of `input` from the
/// one beginning at `line_start` on, given the machine state reached so
/// far.  This is the function [`tokenize_with_stack`] is proved to
/// implement, token for token.
pub open spec fn run_scan(
    input: Seq<char>,
    line_start: int,
    lnum: usize,
    parenlev: usize,
    continued: bool,
    indents: Seq<usize>,
    cont: Option<ContShape>,
) -> Result<(Seq<TokShape>, Seq<usize>), TokenizeError>
    decreases input.len() - line_start, 0int
        when 0 <= line_start && line_start <= input.len() && input.len() <= usize::MAX && lnum
            <= line_start via run_scan_dec
{
    if line_start >= input.len() {
        match cont {
            Option::Some(c) => Err(TokenizeError::UnterminatedString(c.start.line)),
            Option::None => Ok((Seq::empty(), indents)),
        }
    } else {
        let lnum2 = (lnum + 1) as usize;
        let le = line_end_from(input, line_start);
        let line = input.subrange(line_start, le);
        match cont {
            Option::Some(c) => match term_scan(line, 0, c.quote, c.triple) {
                Some(e) => {
                    let tok = TokShape {
                        kind: TokenKind::Str,
                        text: c.text + line.subrange(0, e),
                        start: c.start,
                        end: Position { line: lnum2, col: e as usize },
                        line: c.line_acc + line,
                    };
                    prepend_run(
                        seq![tok],
                        scan_then(input, le, line, lnum2, e, parenlev, continued, indents),
                    )
                },
                None => {
                    if !c.triple && !ends_backslash_nl(line) {
                        let tok = TokShape {
                            kind: TokenKind::ErrorToken,
                            text: c.text + line,
                            start: c.start,
                            end: Position { line: lnum2, col: line.len() as usize },
                            line: c.line_acc,
                        };
                        prepend_run(
                            seq![tok],
                            run_scan(input, le, lnum2, parenlev, continued, indents, Option::None),
                        )
                    } else {
                        let c2 = ContShape {
                            text: c.text + line,
                            line_acc: c.line_acc + line,
                            start: c.start,
                            quote: c.quote,
                            triple: c.triple,
                        };
                        run_scan(input, le, lnum2, parenlev, continued, indents, Option::Some(c2))
                    }
                },
            },
            Option::None => {
                if parenlev == 0 && !continued {
                    let p = indent_pos(line);
                    let col = indent_width(line);
                    if p >= line.len() {
                        Ok((Seq::empty(), indents))
                    } else if blankish(line) {
                        let ts = if line[p] == '#' {
                            let ce = skip_class(line, p, CharClass::CommentBody);
                            seq![
                                span_shape(line, lnum2, TokenKind::Comment, p, ce),
                                span_shape(line, lnum2, TokenKind::NL, ce, line.len() as int),
                            ]
                        } else {
                            seq![span_shape(line, lnum2, TokenKind::NL, p, line.len() as int)]
                        };
                        prepend_run(
                            ts,
                            run_scan(input, le, lnum2, parenlev, continued, indents, Option::None),
                        )
                    } else {
                        let top = indents.last() as int;
                        if col > top {
                            prepend_run(
                                seq![span_shape(line, lnum2, TokenKind::Indent, 0, p)],
                                scan_then(
                                    input,
                                    le,
                                    line,
                                    lnum2,
                                    p,
                                    parenlev,
                                    continued,
                                    indents.push(col as usize),
                                ),
                            )
                        } else if col == top {
                            scan_then(input, le, line, lnum2, p, parenlev, continued, indents)
                        } else if !indents.contains(col as usize) {
                            Err(TokenizeError::UnindentMismatch(lnum2))
                        } else {
                            let keep = indents.index_of(col as usize) + 1;
                            let drops = indents.len() - keep;
                            prepend_run(
                                Seq::new(drops as nat, |i: int| dedent_shape(line, lnum2, p)),
                                scan_then(
                                    input,
                                    le,
                                    line,
                                    lnum2,
                                    p,
                                    parenlev,
                                    continued,
                                    indents.subrange(0, keep),
                                ),
                            )
                        }
                    }
                } else {
                    scan_then(input, le, line, lnum2, 0, parenlev, false, indents)
                }
            },
        }
    }
}

#[via_fn]
proof fn run_scan_dec(
    input: Seq<char>,
    line_start: int,
    lnum: usize,
    parenlev: usize,
    continued: bool,
    indents: Seq<usize>,
    cont: Option<ContShape>,
) {
    if 0 <= line_start && line_start < input.len() {
        lemma_line_end_bounds(input, line_start);
    }
}

/// The ghost image of an executable tokenizing outcome.
pub open spec fn result_image(r: Result<(Vec<Token>, Vec<usize>), TokenizeError>) -> Result<
    (Seq<TokShape>, Seq<usize>),
    TokenizeError,
> {
    match r {
        Ok(p) => Ok((shapes_of(p.0@), p.1@)),
        Err(e) => Err(e),
    }
}

/// What handling a continuation line decided: resume scanning the current
/// line at an offset (the string closed there), or move on to the next
/// physical line.
pub enum ContOut {
    Resume(usize),
    NextLine,
}

/// What handling a logical line start decided: the input is exhausted (a
/// final whitespace-only line without a terminator), the line is done (blank
/// or comment-only), or scanning resumes at the offset past the indentation.
pub enum StartOut {
    Eof,
    NextLine,
    Scan(usize),
}

impl Tokenizer {
    pub open spec fn wf(self) -> bool {
        &&& wf_indents(self.indents@)
        &&& self.indents@.len() == 1 + count_kind(self.out@, TokenKind::Indent) - count_kind(
            self.out@,
            TokenKind::Dedent,
        )
    }

    pub fn new() -> (tk: Tokenizer)
        ensures
            tk.wf(),
            tk.out@.len() == 0,
            tk.indents@ == seq![0usize],
            tk.cont is None,
            tk.parenlev == 0,
            !tk.continued,
    {
        let mut indents: Vec<usize> = Vec::new();
        indents.push(0);
        let tk = Tokenizer {
            out: Vec::new(),
            parenlev: 0,
            continued: false,
            indents,
            cont: None,
        };
        proof {
            assert(tk.indents@ =~= seq![0usize]);
        }
        tk
    }

    /// Append one token to the output.
    fn emit(&mut self, t: Token)
        ensures
            final(self).out@ == old(self).out@.push(t),
            final(self).parenlev == old(self).parenlev,
            final(self).continued == old(self).continued,
            final(self).indents == old(self).indents,
            final(self).cont == old(self).cont,
            forall|k: TokenKind| #[trigger] count_kind(final(self).out@, k) == count_kind(
                old(self).out@,
                k,
            ) + if t.kind == k {
                1int
            } else {
                0int
            },
    {
        proof {
            assert forall|k: TokenKind| #[trigger] count_kind(self.out@.push(t), k) == count_kind(
                self.out@,
                k,
            ) + if t.kind == k {
                1int
            } else {
                0int
            } by {
                lemma_count_kind_push(self.out@, t, k);
            }
        }
        self.out.push(t);
    }

    /// Resolve a pending string continuation against the next physical
    /// line.  If the family's terminator occurs in the line, one `Str`
    /// token is emitted spanning from the recorded start through the match
    /// end, and scanning resumes after it.  Otherwise a broken single-quote
    /// continuation (the line does not end in an escaped newline) aborts
    /// the string with one `ErrorToken`; a triple-quote continuation (or an
    /// intact single-quote one) accumulates the line and moves on.
    pub fn handle_continuation(&mut self, line: &Vec<char>, lnum: usize) -> (r: ContOut)
        requires
            old(self).wf(),
            old(self).cont is Some,
            1 <= line@.len(),
        ensures
            final(self).wf(),
            final(self).indents == old(self).indents,
            final(self).parenlev == old(self).parenlev,
            final(self).continued == old(self).continued,
            count_kind(final(self).out@, TokenKind::Indent) == count_kind(
                old(self).out@,
                TokenKind::Indent,
            ),
            count_kind(final(self).out@, TokenKind::Dedent) == count_kind(
                old(self).out@,
                TokenKind::Dedent,
            ),
            r matches ContOut::Resume(v) ==> v <= line@.len(),
            ({
                let c = old(self).cont->Some_0;
                match term_scan(line@, 0, c.quote, c.triple) {
                    Some(e) => {
                        &&& r == ContOut::Resume(e as usize)
                        &&& final(self).cont is None
                        &&& final(self).out@.len() == old(self).out@.len() + 1
                        &&& final(self).out@ == old(self).out@.push(final(self).out@.last())
                        &&& tok_shape(
                            final(self).out@.last(),
                            TokenKind::Str,
                            c.text@ + line@.subrange(0, e),
                            c.start,
                            (Position { line: lnum, col: e as usize }),
                            c.line_acc@ + line@,
                        )
                    },
                    None => {
                        if !c.triple && !ends_backslash_nl(line@) {
                            &&& r == ContOut::NextLine
                            &&& final(self).cont is None
                            &&& final(self).out@.len() == old(self).out@.len() + 1
                            &&& final(self).out@ == old(self).out@.push(final(self).out@.last())
                            &&& tok_shape(
                                final(self).out@.last(),
                                TokenKind::ErrorToken,
                                c.text@ + line@,
                                c.start,
                                (Position { line: lnum, col: line@.len() as usize }),
                                c.line_acc@,
                            )
                        } else {
                            &&& r == ContOut::NextLine
                            &&& final(self).out@ == old(self).out@
                            &&& final(self).cont is Some
                            &&& final(self).cont->Some_0.text@ == c.text@ + line@
                            &&& final(self).cont->Some_0.line_acc@ == c.line_acc@ + line@
                            &&& final(self).cont->Some_0.start == c.start
                            &&& final(self).cont->Some_0.quote == c.quote
                            &&& final(self).cont->Some_0.triple == c.triple
                        }
                    },
                }
            }),
    {
        let copt = self.cont.take();
        match copt {
            Some(c) => {
                match find_terminator(line, 0, c.quote, c.triple) {
                    Some(e) => {
                        let text = concat_prefix(&c.text, line, e);
                        let full_line = concat_prefix(&c.line_acc, line, line.len());
                        proof {
                            assert(line@.subrange(0, line@.len() as int) =~= line@);
                        }
                        self.emit(
                            Token {
                                kind: TokenKind::Str,
                                text,
                                start: c.start,
                                end: Position { line: lnum, col: e },
                                line: full_line,
                            },
                        );
                        ContOut::Resume(e)
                    },
                    None => {
                        if !c.triple && !ends_bsnl_exec(line) {
                            let text = concat_prefix(&c.text, line, line.len());
                            proof {
                                assert(line@.subrange(0, line@.len() as int) =~= line@);
                            }
                            self.emit(
                                Token {
                                    kind: TokenKind::ErrorToken,
                                    text,
                                    start: c.start,
                                    end: Position { line: lnum, col: line.len() },
                                    line: c.line_acc,
                                },
                            );
                            ContOut::NextLine
                        } else {
                            let mut c = c;
                            extend_chars(&mut c.text, line);
                            extend_chars(&mut c.line_acc, line);
                            self.cont = Some(c);
                            ContOut::NextLine
                        }
                    },
                }
            },
            None => {
                proof {
                    assert(false);
                }
                ContOut::NextLine
            },
        }
    }

    /// A triple-quote opener was scanned at `[s, e)`.  If its terminator
    /// occurs later in the same line, emit one `Str` token spanning opener
    /// through terminator, both delimiters included, and return the offset
    /// to resume at.  Otherwise open a triple-quote continuation holding
    /// the rest of the line, and emit nothing on this line.
    fn close_or_open_triple(&mut self, line: &Vec<char>, lnum: usize, s: usize, e: usize, q: char)
        -> (np: Option<usize>)
        requires
            old(self).wf(),
            old(self).cont is None,
            s < e <= line@.len(),
        ensures
            final(self).wf(),
            final(self).indents == old(self).indents,
            final(self).parenlev == old(self).parenlev,
            final(self).continued == old(self).continued,
            count_kind(final(self).out@, TokenKind::Indent) == count_kind(
                old(self).out@,
                TokenKind::Indent,
            ),
            count_kind(final(self).out@, TokenKind::Dedent) == count_kind(
                old(self).out@,
                TokenKind::Dedent,
            ),
            np matches Some(v) ==> e < v <= line@.len(),
            match term_scan(line@, e as int, q, true) {
                Some(te) => {
                    &&& np == Some(te as usize)
                    &&& 0 <= te <= line@.len()
                    &&& final(self).cont is None
                    &&& final(self).out@.len() == old(self).out@.len() + 1
                    &&& final(self).out@ == old(self).out@.push(final(self).out@.last())
                    &&& tok_shape(
                        final(self).out@.last(),
                        TokenKind::Str,
                        line@.subrange(s as int, te),
                        (Position { line: lnum, col: s }),
                        (Position { line: lnum, col: te as usize }),
                        line@,
                    )
                },
                None => {
                    &&& np is None
                    &&& final(self).out@ == old(self).out@
                    &&& final(self).cont is Some
                    &&& final(self).cont->Some_0.text@ == line@.subrange(
                        s as int,
                        line@.len() as int,
                    )
                    &&& final(self).cont->Some_0.line_acc@ == line@
                    &&& final(self).cont->Some_0.start == (Position { line: lnum, col: s })
                    &&& final(self).cont->Some_0.quote == q
                    &&& final(self).cont->Some_0.triple == true
                },
            },
    {
        match find_terminator(line, e, q, true) {
            Some(te) => {
                let text = copy_range(line, s, te);
                let lcopy = copy_range(line, 0, line.len());
                proof {
                    assert(line@.subrange(0, line@.len() as int) =~= line@);
                }
                self.emit(
                    Token {
                        kind: TokenKind::Str,
                        text,
                        start: Position { line: lnum, col: s },
                        end: Position { line: lnum, col: te },
                        line: lcopy,
                    },
                );
                Some(te)
            },
            None => {
                let text = copy_range(line, s, line.len());
                let lacc = copy_range(line, 0, line.len());
                proof {
                    assert(line@.subrange(0, line@.len() as int) =~= line@);
                }
                self.cont = Some(
                    ContState {
                        text,
                        line_acc: lacc,
                        start: Position { line: lnum, col: s },
                        quote: q,
                        triple: true,
                    },
                );
                None
            },
        }
    }

    /// A single-quoted string lexeme at `s` ran to the end of the line
    /// without closing: open an escaped-newline continuation holding the
    /// rest of the line.  No token is emitted on this line.
    fn open_single_cont(&mut self, line: &Vec<char>, lnum: usize, s: usize, q: char)
        requires
            old(self).wf(),
            old(self).cont is None,
            s < line@.len(),
        ensures
            final(self).wf(),
            final(self).indents == old(self).indents,
            final(self).parenlev == old(self).parenlev,
            final(self).continued == old(self).continued,
            final(self).out@ == old(self).out@,
            final(self).cont is Some,
            final(self).cont->Some_0.text@ == line@.subrange(s as int, line@.len() as int),
            final(self).cont->Some_0.line_acc@ == line@,
            final(self).cont->Some_0.start == (Position { line: lnum, col: s }),
            final(self).cont->Some_0.quote == q,
            final(self).cont->Some_0.triple == false,
            count_kind(final(self).out@, TokenKind::Indent) == count_kind(
                old(self).out@,
                TokenKind::Indent,
            ),
            count_kind(final(self).out@, TokenKind::Dedent) == count_kind(
                old(self).out@,
                TokenKind::Dedent,
            ),
    {
        let text = copy_range(line, s, line.len());
        let lacc = copy_range(line, 0, line.len());
        proof {
            assert(line@.subrange(0, line@.len() as int) =~= line@);
        }
        self.cont = Some(
            ContState {
                text,
                line_acc: lacc,
                start: Position { line: lnum, col: s },
                quote: q,
                triple: false,
            },
        );
    }

    /// Handle a physical line that starts a logical line (no pending
    /// continuation, bracket depth zero, no trailing backslash on the line
    /// before).
    ///
    /// A line of nothing but whitespace, with no terminator, ends the
    /// input.  A blank or comment-only line gets its `Comment` (if any) and
    /// one `NL` token, and its indentation is not evaluated.  Otherwise the
    /// measured column is compared against the indentation stack: a wider
    /// column pushes a level and emits one `Indent`; a narrower one pops
    /// levels, emitting one zero-width `Dedent` per pop, and fails with
    /// `UnindentMismatch` when the column matches no open level.
    #[verifier::loop_isolation(false)]
    pub fn handle_line_start(&mut self, line: &Vec<char>, lnum: usize) -> (r: Result<
        StartOut,
        TokenizeError,
    >)
        requires
            old(self).wf(),
            old(self).cont is None,
            old(self).parenlev == 0,
            !old(self).continued,
            1 <= line@.len(),
            8 * line@.len() + 8 <= usize::MAX,
        ensures
            final(self).wf(),
            final(self).parenlev == old(self).parenlev,
            final(self).continued == old(self).continued,
            final(self).cont is None,
            old(self).out@.len() <= final(self).out@.len(),
            final(self).out@.subrange(0, old(self).out@.len() as int) == old(self).out@,
            ({
                let p = indent_pos(line@);
                let col = indent_width(line@);
                let top = old(self).indents@.last() as int;
                match r {
                    Err(e) => {
                        &&& e == TokenizeError::UnindentMismatch(lnum)
                        &&& p < line@.len()
                        &&& !blankish(line@)
                        &&& col < top
                        &&& !old(self).indents@.contains(col as usize)
                        &&& final(self).out@ == old(self).out@
                        &&& final(self).indents@ == old(self).indents@
                    },
                    Ok(StartOut::Eof) => {
                        &&& p == line@.len()
                        &&& final(self).out@ == old(self).out@
                        &&& final(self).indents@ == old(self).indents@
                    },
                    Ok(StartOut::NextLine) => {
                        &&& blankish(line@)
                        &&& final(self).indents@ == old(self).indents@
                        &&& if line@[p] == '#' {
                            let ce = skip_class(line@, p, CharClass::CommentBody);
                            &&& final(self).out@.len() == old(self).out@.len() + 2
                            &&& tok_shape(
                                final(self).out@[final(self).out@.len() - 2],
                                TokenKind::Comment,
                                line@.subrange(p, ce),
                                (Position { line: lnum, col: p as usize }),
                                (Position { line: lnum, col: ce as usize }),
                                line@,
                            )
                            &&& tok_shape(
                                final(self).out@.last(),
                                TokenKind::NL,
                                line@.subrange(ce, line@.len() as int),
                                (Position { line: lnum, col: ce as usize }),
                                (Position { line: lnum, col: line@.len() as usize }),
                                line@,
                            )
                        } else {
                            &&& final(self).out@.len() == old(self).out@.len() + 1
                            &&& tok_shape(
                                final(self).out@.last(),
                                TokenKind::NL,
                                line@.subrange(p, line@.len() as int),
                                (Position { line: lnum, col: p as usize }),
                                (Position { line: lnum, col: line@.len() as usize }),
                                line@,
                            )
                        }
                    },
                    Ok(StartOut::Scan(sp)) => {
                        &&& sp == p
                        &&& p < line@.len()
                        &&& !blankish(line@)
                        &&& if col > top {
                            &&& final(self).indents@ == old(self).indents@.push(col as usize)
                            &&& final(self).out@.len() == old(self).out@.len() + 1
                            &&& tok_shape(
                                final(self).out@.last(),
                                TokenKind::Indent,
                                line@.subrange(0, p),
                                (Position { line: lnum, col: 0 }),
                                (Position { line: lnum, col: p as usize }),
                                line@,
                            )
                        } else if col == top {
                            &&& final(self).indents@ == old(self).indents@
                            &&& final(self).out@ == old(self).out@
                        } else {
                            &&& final(self).indents@.len() >= 1
                            &&& final(self).indents@ == old(self).indents@.subrange(
                                0,
                                final(self).indents@.len() as int,
                            )
                            &&& final(self).indents@.last() as int == col
                            &&& final(self).out@.len() == old(self).out@.len() + (
                            old(self).indents@.len() - final(self).indents@.len())
                            &&& forall|m: int|
                                old(self).out@.len() <= m < final(self).out@.len() ==> tok_shape(
                                    #[trigger] final(self).out@[m],
                                    TokenKind::Dedent,
                                    Seq::<char>::empty(),
                                    (Position { line: lnum, col: p as usize }),
                                    (Position { line: lnum, col: p as usize }),
                                    line@,
                                )
                        }
                    },
                }
            }),
    {
        let n = line.len();
        let (col, p) = measure_indent(line);
        proof {
            assert(self.out@.subrange(0, self.out@.len() as int) =~= self.out@);
        }
        if p == n {
            return Ok(StartOut::Eof);
        }
        let c = line[p];
        if c == '#' || c == '\r' || c == '\n' {
            if c == '#' {
                let ce = scan_class(line, p, CharClass::CommentBody);
                let text = copy_range(line, p, ce);
                let lcopy = copy_range(line, 0, n);
                proof {
                    assert(line@.subrange(0, n as int) =~= line@);
                }
                self.emit(
                    Token {
                        kind: TokenKind::Comment,
                        text,
                        start: Position { line: lnum, col: p },
                        end: Position { line: lnum, col: ce },
                        line: lcopy,
                    },
                );
                let text2 = copy_range(line, ce, n);
                let lcopy2 = copy_range(line, 0, n);
                self.emit(
                    Token {
                        kind: TokenKind::NL,
                        text: text2,
                        start: Position { line: lnum, col: ce },
                        end: Position { line: lnum, col: n },
                        line: lcopy2,
                    },
                );
                proof {
                    assert(self.out@.subrange(0, old(self).out@.len() as int) =~= old(self).out@);
                }
                return Ok(StartOut::NextLine);
            } else {
                let text = copy_range(line, p, n);
                let lcopy = copy_range(line, 0, n);
                proof {
                    assert(line@.subrange(0, n as int) =~= line@);
                }
                self.emit(
                    Token {
                        kind: TokenKind::NL,
                        text,
                        start: Position { line: lnum, col: p },
                        end: Position { line: lnum, col: n },
                        line: lcopy,
                    },
                );
                proof {
                    assert(self.out@.subrange(0, old(self).out@.len() as int) =~= old(self).out@);
                }
                return Ok(StartOut::NextLine);
            }
        }
        let top = self.indents[self.indents.len() - 1];
        if col > top {
            let text = copy_range(line, 0, p);
            let lcopy = copy_range(line, 0, n);
            proof {
                assert(line@.subrange(0, n as int) =~= line@);
            }
            self.indents.push(col);
            self.emit(
                Token {
                    kind: TokenKind::Indent,
                    text,
                    start: Position { line: lnum, col: 0 },
                    end: Position { line: lnum, col: p },
                    line: lcopy,
                },
            );
            proof {
                let s0 = old(self).indents@;
                let s1 = self.indents@;
                assert forall|a: int, b: int| 0 <= a < b < s1.len() implies s1[a] < s1[b] by {
                    if b < s0.len() {
                    } else {
                        assert(s1[b] == col);
                        if a < s0.len() - 1 {
                            assert(s0[a] < s0[s0.len() - 1]);
                        }
                    }
                }
                assert(self.out@.subrange(0, old(self).out@.len() as int) =~= old(self).out@);
            }
            return Ok(StartOut::Scan(p));
        } else if col == top {
            return Ok(StartOut::Scan(p));
        } else {
            if !stack_contains(&self.indents, col) {
                return Err(TokenizeError::UnindentMismatch(lnum));
            }
            let ghost s0 = self.indents@;
            let ghost out0 = self.out@;
            loop
                invariant
                    self.wf(),
                    self.parenlev == old(self).parenlev,
                    self.continued == old(self).continued,
                    self.cont is None,
                    1 <= self.indents@.len() <= s0.len(),
                    self.indents@ == s0.subrange(0, self.indents@.len() as int),
                    self.indents@.contains(col),
                    self.out@.len() == out0.len() + (s0.len() - self.indents@.len()),
                    self.out@.subrange(0, out0.len() as int) == out0,
                    forall|m: int|
                        out0.len() <= m < self.out@.len() ==> tok_shape(
                            #[trigger] self.out@[m],
                            TokenKind::Dedent,
                            Seq::<char>::empty(),
                            (Position { line: lnum, col: p }),
                            (Position { line: lnum, col: p }),
                            line@,
                        ),
                decreases self.indents@.len(),
            {
                let li = self.indents.len() - 1;
                if self.indents[li] == col {
                    return Ok(StartOut::Scan(p));
                }
                let ghost idx = choose|idx: int|
                    0 <= idx < self.indents@.len() && self.indents@[idx] == col;
                proof {
                    assert(self.indents@[li as int] != col);
                    assert(idx < li as int);
                }
                let _ = self.indents.pop();
                let text: Vec<char> = Vec::new();
                let lcopy = copy_range(line, 0, n);
                proof {
                    assert(line@.subrange(0, n as int) =~= line@);
                    assert(text@ =~= Seq::<char>::empty());
                }
                self.emit(
                    Token {
                        kind: TokenKind::Dedent,
                        text,
                        start: Position { line: lnum, col: p },
                        end: Position { line: lnum, col: p },
                        line: lcopy,
                    },
                );
                proof {
                    assert(self.out@.subrange(0, out0.len() as int) =~= out0);
                    let s1 = self.indents@;
                    assert(s1 =~= s0.subrange(0, s1.len() as int));
                    assert(s1[idx] == col);
                    assert(s1.contains(col));
                    assert forall|a: int, b: int| 0 <= a < b < s1.len() implies s1[a] < s1[b] by {
                        assert(s0.subrange(0, s0.len() as int) =~= s0);
                    }
                }
            }
        }
    }

    /// Scan one physical line for lexemes from `start` to its end, emitting
    /// one token per classified lexeme: numbers, names, operators (adjusting
    /// the bracket depth, which never goes below zero), comments, complete
    /// string literals, line ends (`Newline` outside brackets, `NL` inside),
    /// and one single-character `ErrorToken` wherever nothing matches.  A
    /// backslash continuation sets the continued-line flag and emits
    /// nothing.  A string lexeme left open at the line's end opens a
    /// continuation record and stops the scan.  No `Indent` or `Dedent` is
    /// ever emitted here.
    #[verifier::loop_isolation(false)]
    pub fn scan_line(&mut self, line: &Vec<char>, lnum: usize, start: usize)
        requires
            old(self).wf(),
            old(self).cont is None,
            start <= line@.len(),
            1 <= line@.len(),
        ensures
            final(self).wf(),
            final(self).indents == old(self).indents,
            count_kind(final(self).out@, TokenKind::Indent) == count_kind(
                old(self).out@,
                TokenKind::Indent,
            ),
            count_kind(final(self).out@, TokenKind::Dedent) == count_kind(
                old(self).out@,
                TokenKind::Dedent,
            ),
            old(self).out@.len() <= final(self).out@.len(),
            final(self).out@.subrange(0, old(self).out@.len() as int) == old(self).out@,
            ({
                let o = line_scan(
                    line@,
                    lnum,
                    start as int,
                    old(self).parenlev,
                    old(self).continued,
                );
                &&& shapes_of(final(self).out@.skip(old(self).out@.len() as int)) == o.toks
                &&& final(self).parenlev == o.parenlev
                &&& final(self).continued == o.continued
                &&& cont_shapes_match(final(self).cont, o.cont)
            }),
    {
        let n = line.len();
        let mut pos: usize = start;
        let ghost nkeep = old(self).out@.len() as int;
        let ghost mut ts: Seq<TokShape> = Seq::empty();
        proof {
            assert(self.out@.skip(nkeep) =~= Seq::<Token>::empty());
            assert(shapes_of(self.out@.skip(nkeep)) =~= ts);
            assert(Seq::<TokShape>::empty() + line_scan(
                line@,
                lnum,
                start as int,
                self.parenlev,
                self.continued,
            ).toks =~= line_scan(line@, lnum, start as int, self.parenlev, self.continued).toks);
        }
        loop
            invariant
                self.wf(),
                self.cont is None,
                self.indents == old(self).indents,
                pos <= n,
                count_kind(self.out@, TokenKind::Indent) == count_kind(
                    old(self).out@,
                    TokenKind::Indent,
                ),
                count_kind(self.out@, TokenKind::Dedent) == count_kind(
                    old(self).out@,
                    TokenKind::Dedent,
                ),
                nkeep <= self.out@.len(),
                self.out@.subrange(0, nkeep) == old(self).out@,
                ts == shapes_of(self.out@.skip(nkeep)),
                line_scan(line@, lnum, start as int, old(self).parenlev, old(self).continued)
                    == glue_out(
                    ts,
                    line_scan(line@, lnum, pos as int, self.parenlev, self.continued),
                ),
            decreases n - pos,
        {
            if pos >= n {
                proof {
                    assert(ts + Seq::<TokShape>::empty() =~= ts);
                }
                return ;
            }
            match scan_at(line, pos) {
                ScanStep::OnlySpace => {
                    pos = n;
                },
                ScanStep::NoMatch => {
                    let ghost pre = self.out@;
                    self.emit_span(line, lnum, pos, pos + 1, TokenKind::ErrorToken);
                    proof {
                        assert(self.out@.subrange(0, nkeep) =~= old(self).out@);
                        lemma_skip_push(pre, self.out@.last(), nkeep);
                        assert(shape_of(self.out@.last()) == span_shape(
                            line@,
                            lnum,
                            TokenKind::ErrorToken,
                            pos as int,
                            pos + 1,
                        ));
                        lemma_glue_cons(
                            ts,
                            shape_of(self.out@.last()),
                            line_scan(line@, lnum, pos + 1, self.parenlev, self.continued),
                        );
                        ts = ts.push(shape_of(self.out@.last()));
                    }
                    pos = pos + 1;
                },
                ScanStep::Tok(lx) => {
                    let s = lx.start;
                    let e = lx.end;
                    match lx.cat {
                        LexCat::BackslashNl => {
                            self.continued = true;
                            pos = e;
                        },
                        LexCat::TripleOpen(q) => {
                            let ghost pre = self.out@;
                            match self.close_or_open_triple(line, lnum, s, e, q) {
                                Some(np) => {
                                    proof {
                                        assert(self.out@.subrange(0, nkeep) =~= old(self).out@);
                                        lemma_skip_push(pre, self.out@.last(), nkeep);
                                        assert(shape_of(self.out@.last()) == span_shape(
                                            line@,
                                            lnum,
                                            TokenKind::Str,
                                            s as int,
                                            np as int,
                                        ));
                                        lemma_glue_cons(
                                            ts,
                                            shape_of(self.out@.last()),
                                            line_scan(
                                                line@,
                                                lnum,
                                                np as int,
                                                self.parenlev,
                                                self.continued,
                                            ),
                                        );
                                        ts = ts.push(shape_of(self.out@.last()));
                                    }
                                    pos = np;
                                },
                                None => {
                                    proof {
                                        assert(ts + Seq::<TokShape>::empty() =~= ts);
                                    }
                                    return ;
                                },
                            }
                        },
                        LexCat::StrEol(q) => {
                            self.open_single_cont(line, lnum, s, q);
                            proof {
                                assert(ts + Seq::<TokShape>::empty() =~= ts);
                            }
                            return ;
                        },
                        LexCat::Num | LexCat::LineEnd | LexCat::CommentTok | LexCat::NameTok
                            | LexCat::StrDone | LexCat::OpTok => {
                            let k = match lx.cat {
                                LexCat::Num => TokenKind::Number,
                                LexCat::LineEnd => if self.parenlev > 0 {
                                    TokenKind::NL
                                } else {
                                    TokenKind::Newline
                                },
                                LexCat::CommentTok => TokenKind::Comment,
                                LexCat::NameTok => TokenKind::Name,
                                LexCat::StrDone => TokenKind::Str,
                                _ => TokenKind::Op,
                            };
                            if let LexCat::OpTok = lx.cat {
                                let c0 = line[s];
                                if c0 == '(' || c0 == '[' || c0 == '{' {
                                    if self.parenlev < usize::MAX {
                                        self.parenlev = self.parenlev + 1;
                                    }
                                } else if c0 == ')' || c0 == ']' || c0 == '}' {
                                    if self.parenlev > 0 {
                                        self.parenlev = self.parenlev - 1;
                                    }
                                }
                            }
                            let ghost pre = self.out@;
                            self.emit_span(line, lnum, s, e, k);
                            proof {
                                assert(self.out@.subrange(0, nkeep) =~= old(self).out@);
                                lemma_skip_push(pre, self.out@.last(), nkeep);
                                assert(shape_of(self.out@.last()) == span_shape(
                                    line@,
                                    lnum,
                                    k,
                                    s as int,
                                    e as int,
                                ));
                                lemma_glue_cons(
                                    ts,
                                    shape_of(self.out@.last()),
                                    line_scan(line@, lnum, e as int, self.parenlev, self.continued),
                                );
                                ts = ts.push(shape_of(self.out@.last()));
                            }
                            pos = e;
                        },
                    }
                },
            }
        }
    }

    /// Emit one token of kind `k` whose text is `line[s..e]`.
    fn emit_span(&mut self, line: &Vec<char>, lnum: usize, s: usize, e: usize, k: TokenKind)
        requires
            s <= e <= line@.len(),
        ensures
            final(self).out@ == old(self).out@.push(final(self).out@.last()),
            final(self).out@.len() == old(self).out@.len() + 1,
            tok_shape(
                final(self).out@.last(),
                k,
                line@.subrange(s as int, e as int),
                (Position { line: lnum, col: s }),
                (Position { line: lnum, col: e }),
                line@,
            ),
            final(self).parenlev == old(self).parenlev,
            final(self).continued == old(self).continued,
            final(self).indents == old(self).indents,
            final(self).cont == old(self).cont,
            forall|kk: TokenKind| #[trigger] count_kind(final(self).out@, kk) == count_kind(
                old(self).out@,
                kk,
            ) + if k == kk {
                1int
            } else {
                0int
            },
    {
        let text = copy_range(line, s, e);
        let lcopy = copy_range(line, 0, line.len());
        proof {
            assert(line@.subrange(0, line@.len() as int) =~= line@);
        }
        self.emit(
            Token {
                kind: k,
                text,
                start: Position { line: lnum, col: s },
                end: Position { line: lnum, col: e },
                line: lcopy,
            },
        );
    }
}

proof fn lemma_prepend_assoc(
    a: Seq<TokShape>,
    b: Seq<TokShape>,
    r: Result<(Seq<TokShape>, Seq<usize>), TokenizeError>,
)
    ensures
        prepend_run(a, prepend_run(b, r)) == prepend_run(a + b, r),
{
    match r {
        Ok(p) => {
            assert(a + (b + p.0) =~= (a + b) + p.0);
        },
        Err(_) => {},
    }
}

proof fn lemma_prepend_empty(r: Result<(Seq<TokShape>, Seq<usize>), TokenizeError>)
    ensures
        prepend_run(Seq::empty(), r) == r,
{
    match r {
        Ok(p) => {
            assert(Seq::<TokShape>::empty() + p.0 =~= p.0);
        },
        Err(_) => {},
    }
}

proof fn lemma_col_of_nonneg(line: Seq<char>, i: int)
    requires
        0 <= i,
    ensures
        col_of(line, i) >= 0,
    decreases i,
{
    if i > 0 {
        lemma_col_of_nonneg(line, i - 1);
    }
}

/// Tokenize the whole input, returning both the token sequence and the
/// final indentation stack.
///
/// The outcome equals, token for token, the specification-level pass
/// [`run_scan`] from the initial machine state.  The stack always holds one
/// entry per indentation level still open at the end of the input, above a
/// permanent bottom entry `0`, so its length exceeds the difference between
/// emitted `Indent` and `Dedent` tokens by exactly one.  In particular, on
/// input whose indentation returns to column zero the stack comes back as
/// `[0]` and the `Indent` and `Dedent` counts are equal; no trailing
/// synthetic `Dedent` tokens are emitted to force that.
#[verifier::loop_isolation(false)]
#[verifier::rlimit(100)]
pub fn tokenize_with_stack(input: &str) -> (r: Result<(Vec<Token>, Vec<usize>), TokenizeError>)
    requires
        8 * input@.len() + 8 <= usize::MAX,
    ensures
        result_image(r) == run_scan(input@, 0, 0, 0, false, seq![0usize], Option::None),
        (match r {
            Ok(p) => {
                &&& wf_indents(p.1@)
                &&& p.1@.len() == 1 + count_kind(p.0@, TokenKind::Indent) - count_kind(
                    p.0@,
                    TokenKind::Dedent,
                )
                &&& count_kind(p.0@, TokenKind::Dedent) <= count_kind(p.0@, TokenKind::Indent)
                &&& p.1@ == seq![0usize] ==> count_kind(p.0@, TokenKind::Indent) == count_kind(
                    p.0@,
                    TokenKind::Dedent,
                )
            },
            Err(_) => true,
        }),
        input@.len() == 0 ==> (r matches Ok(p) && p.0@.len() == 0 && p.1@ == seq![0usize]),
{
    let chars = chars_of(input);
    let n = chars.len();
    let mut tk = Tokenizer::new();
    let mut line_start: usize = 0;
    let mut lnum: usize = 0;
    let ghost rr = run_scan(input@, 0, 0, 0, false, seq![0usize], Option::None);
    proof {
        assert(shapes_of(tk.out@) =~= Seq::<TokShape>::empty());
        lemma_prepend_empty(rr);
    }
    while line_start < n
        invariant
            tk.wf(),
            line_start <= n,
            lnum <= line_start,
            n == 0 ==> tk.out@.len() == 0 && tk.indents@ == seq![0usize] && tk.cont is None,
            rr == prepend_run(
                shapes_of(tk.out@),
                run_scan(
                    input@,
                    line_start as int,
                    lnum,
                    tk.parenlev,
                    tk.continued,
                    tk.indents@,
                    cont_image(tk.cont),
                ),
            ),
        decreases n - line_start,
    {
        let ghost lnum0 = lnum;
        lnum = lnum + 1;
        let le = next_line_end(&chars, line_start);
        let line = copy_range(&chars, line_start, le);
        let ghost lseq = input@.subrange(line_start as int, le as int);
        let ghost pre_out = tk.out@;
        let ghost pre_pl = tk.parenlev;
        let ghost pre_cd = tk.continued;
        let ghost pre_ind = tk.indents@;
        let ghost pre_cont = cont_image(tk.cont);
        let ghost before = run_scan(
            input@,
            line_start as int,
            lnum0,
            pre_pl,
            pre_cd,
            pre_ind,
            pre_cont,
        );
        proof {
            assert(line@ == lseq);
        }
        let mut pos: usize = 0;
        if tk.cont.is_some() {
            let ghost cshape = pre_cont->Some_0;
            proof {
                lemma_term_scan_bounds(lseq, 0, cshape.quote, cshape.triple);
            }
            match tk.handle_continuation(&line, lnum) {
                ContOut::NextLine => {
                    proof {
                        if term_scan(lseq, 0, cshape.quote, cshape.triple) is None {
                            if !cshape.triple && !ends_backslash_nl(lseq) {
                                let etok = shape_of(tk.out@.last());
                                lemma_shapes_push(pre_out, tk.out@.last());
                                lemma_prepend_assoc(
                                    shapes_of(pre_out),
                                    seq![etok],
                                    run_scan(
                                        input@,
                                        le as int,
                                        lnum,
                                        tk.parenlev,
                                        tk.continued,
                                        tk.indents@,
                                        Option::None,
                                    ),
                                );
                                assert(shapes_of(pre_out) + seq![etok] =~= shapes_of(
                                    pre_out,
                                ).push(etok));
                            } else {
                            }
                        }
                    }
                    line_start = le;
                    continue ;
                },
                ContOut::Resume(rp) => {
                    proof {
                        let stok = shape_of(tk.out@.last());
                        lemma_shapes_push(pre_out, tk.out@.last());
                        lemma_prepend_assoc(
                            shapes_of(pre_out),
                            seq![stok],
                            scan_then(
                                input@,
                                le as int,
                                lseq,
                                lnum,
                                rp as int,
                                tk.parenlev,
                                tk.continued,
                                tk.indents@,
                            ),
                        );
                        assert(shapes_of(pre_out) + seq![stok] =~= shapes_of(pre_out).push(stok));
                        assert(rr == prepend_run(
                            shapes_of(tk.out@),
                            scan_then(
                                input@,
                                le as int,
                                lseq,
                                lnum,
                                rp as int,
                                tk.parenlev,
                                tk.continued,
                                tk.indents@,
                            ),
                        ));
                    }
                    pos = rp;
                },
            }
        } else if tk.parenlev == 0 && !tk.continued {
            proof {
                lemma_skip_class_range(lseq, 0, CharClass::Space);
                lemma_col_of_nonneg(lseq, indent_pos(lseq));
            }
            match tk.handle_line_start(&line, lnum) {
                Err(e) => {
                    proof {
                        assert(result_image(Err::<(Vec<Token>, Vec<usize>), TokenizeError>(e))
                            == rr);
                    }
                    return Err(e);
                },
                Ok(StartOut::Eof) => {
                    proof {
                        assert(shapes_of(tk.out@) + Seq::<TokShape>::empty() =~= shapes_of(
                            tk.out@,
                        ));
                    }
                    return Ok((tk.out, tk.indents));
                },
                Ok(StartOut::NextLine) => {
                    proof {
                        let p = indent_pos(lseq);
                        let after = run_scan(
                            input@,
                            le as int,
                            lnum,
                            tk.parenlev,
                            tk.continued,
                            tk.indents@,
                            Option::None,
                        );
                        if lseq[p] == '#' {
                            let ce = skip_class(lseq, p, CharClass::CommentBody);
                            let ts = seq![
                                span_shape(lseq, lnum, TokenKind::Comment, p, ce),
                                span_shape(lseq, lnum, TokenKind::NL, ce, lseq.len() as int),
                            ];
                            assert(shapes_of(tk.out@.skip(pre_out.len() as int)) =~= ts);
                            lemma_shapes_split(tk.out@, pre_out.len() as int);
                            lemma_prepend_assoc(shapes_of(pre_out), ts, after);
                        } else {
                            let ts = seq![
                                span_shape(lseq, lnum, TokenKind::NL, p, lseq.len() as int),
                            ];
                            assert(shapes_of(tk.out@.skip(pre_out.len() as int)) =~= ts);
                            lemma_shapes_split(tk.out@, pre_out.len() as int);
                            lemma_prepend_assoc(shapes_of(pre_out), ts, after);
                        }
                    }
                    line_start = le;
                    continue ;
                },
                Ok(StartOut::Scan(sp)) => {
                    proof {
                        let p = indent_pos(lseq);
                        let col = indent_width(lseq);
                        let top = pre_ind.last() as int;
                        if col > top {
                            let itok = shape_of(tk.out@.last());
                            assert(tk.out@ =~= pre_out.push(tk.out@.last()));
                            lemma_shapes_push(pre_out, tk.out@.last());
                            lemma_prepend_assoc(
                                shapes_of(pre_out),
                                seq![itok],
                                scan_then(
                                    input@,
                                    le as int,
                                    lseq,
                                    lnum,
                                    p,
                                    tk.parenlev,
                                    tk.continued,
                                    tk.indents@,
                                ),
                            );
                            assert(shapes_of(pre_out) + seq![itok] =~= shapes_of(pre_out).push(
                                itok,
                            ));
                        } else if col == top {
                        } else {
                            let keep_len = tk.indents@.len() as int;
                            lemma_increasing_index(pre_ind, (col as usize), keep_len);
                            let drops = pre_ind.len() - keep_len;
                            let dts = Seq::new(
                                drops as nat,
                                |i: int| dedent_shape(lseq, lnum, p),
                            );
                            assert(shapes_of(tk.out@.skip(pre_out.len() as int)) =~= dts);
                            lemma_shapes_split(tk.out@, pre_out.len() as int);
                            lemma_prepend_assoc(
                                shapes_of(pre_out),
                                dts,
                                scan_then(
                                    input@,
                                    le as int,
                                    lseq,
                                    lnum,
                                    p,
                                    tk.parenlev,
                                    tk.continued,
                                    tk.indents@,
                                ),
                            );
                        }
                        assert(rr == prepend_run(
                            shapes_of(tk.out@),
                            scan_then(
                                input@,
                                le as int,
                                lseq,
                                lnum,
                                sp as int,
                                tk.parenlev,
                                tk.continued,
                                tk.indents@,
                            ),
                        ));
                    }
                    pos = sp;
                },
            }
        } else {
            tk.continued = false;
            proof {
                assert(rr == prepend_run(
                    shapes_of(tk.out@),
                    scan_then(
                        input@,
                        le as int,
                        lseq,
                        lnum,
                        0int,
                        tk.parenlev,
                        tk.continued,
                        tk.indents@,
                    ),
                ));
            }
        }
        proof {
            assert(rr == prepend_run(
                shapes_of(tk.out@),
                scan_then(
                    input@,
                    le as int,
                    lseq,
                    lnum,
                    pos as int,
                    tk.parenlev,
                    tk.continued,
                    tk.indents@,
                ),
            ));
        }
        let ghost mid_out = tk.out@;
        let ghost mid_pl = tk.parenlev;
        let ghost mid_cd = tk.continued;
        let ghost mid_ind = tk.indents@;
        tk.scan_line(&line, lnum, pos);
        proof {
            let lo = line_scan(lseq, lnum, pos as int, mid_pl, mid_cd);
            lemma_shapes_split(tk.out@, mid_out.len() as int);
            lemma_prepend_assoc(
                shapes_of(mid_out),
                lo.toks,
                run_scan(input@, le as int, lnum, lo.parenlev, lo.continued, mid_ind, lo.cont),
            );
        }
        line_start = le;
    }
    proof {
        if tk.cont is None {
            assert(shapes_of(tk.out@) + Seq::<TokShape>::empty() =~= shapes_of(tk.out@));
        }
    }
    match tk.cont {
        Some(c) => Err(TokenizeError::UnterminatedString(c.start.line)),
        None => Ok((tk.out, tk.indents)),
    }
}

/// Tokenize the input into an ordered token sequence, or fail with the one
/// fatal error the pass hit.  The outcome equals, token for token, the
/// specification-level pass [`run_scan`] from the initial machine state.
/// Empty input yields an empty sequence.  Every successful result holds at
/// most as many `Dedent` as `Indent` tokens.
pub fn tokenize(input: &str) -> (r: Result<Vec<Token>, TokenizeError>)
    requires
        8 * input@.len() + 8 <= usize::MAX,
    ensures
        (match r {
            Ok(toks) => (run_scan(input@, 0, 0, 0, false, seq![0usize], Option::None) matches Ok(q)
                && q.0 == shapes_of(toks@)),
            Err(e) => run_scan(input@, 0, 0, 0, false, seq![0usize], Option::None) == Err::<
                (Seq<TokShape>, Seq<usize>),
                TokenizeError,
            >(e),
        }),
        (match r {
            Ok(toks) => count_kind(toks@, TokenKind::Dedent) <= count_kind(
                toks@,
                TokenKind::Indent,
            ),
            Err(_) => true,
        }),
        input@.len() == 0 ==> (r matches Ok(toks) && toks@.len() == 0),
{
    match tokenize_with_stack(input) {
        Ok((toks, _stack)) => Ok(toks),
        Err(e) => Err(e),
    }
}

} // verus!

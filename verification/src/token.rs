//! The token and position data model shared by the whole tokenizer.

use vstd::prelude::*;

verus! {

/// A source position: 1-based physical line number and 0-based column offset
/// within that line, measured in characters.
#[derive(Clone, Copy, PartialEq, Eq, Structural, Debug)]
pub struct Position {
    pub line: usize,
    pub col: usize,
}

/// The closed set of token kinds the tokenizer produces.
///
/// `Newline` ends a logical line (outside brackets); `NL` ends a physical
/// line that is not a logical line end (a blank or comment-only line, or a
/// line end inside brackets).  `Indent` and `Dedent` are synthesized from
/// indentation changes.  `ErrorToken` is a single unclassifiable character,
/// or an unterminated-string fragment whose continuation contract was broken.
#[derive(Clone, Copy, PartialEq, Eq, Structural, Debug)]
pub enum TokenKind {
    Number,
    Name,
    Op,
    Str,
    Comment,
    Newline,
    NL,
    Indent,
    Dedent,
    ErrorToken,
}

/// The two fatal failures.  Each carries the line number that triggered it:
/// for `UnindentMismatch` the line whose indentation matches no open level,
/// for `UnterminatedString` the line on which the open string began.
#[derive(Clone, Copy, PartialEq, Eq, Structural, Debug)]
pub enum TokenizeError {
    UnindentMismatch(usize),
    UnterminatedString(usize),
}

/// One emitted token.
///
/// `text` holds exactly the matched lexeme (empty for `Dedent`; the leading
/// whitespace for `Indent`).  `line` holds the complete physical line the
/// token starts on; for a token built across continuation lines it is the
/// concatenation of the physical lines spanned.
#[derive(Clone, Debug)]
pub struct Token {
    pub kind: TokenKind,
    pub text: Vec<char>,
    pub start: Position,
    pub end: Position,
    pub line: Vec<char>,
}

/// All five fields of one token, gathered for contracts.
pub open spec fn tok_shape(
    t: Token,
    k: TokenKind,
    text: Seq<char>,
    start: Position,
    end: Position,
    line: Seq<char>,
) -> bool {
    &&& t.kind == k
    &&& t.text@ == text
    &&& t.start == start
    &&& t.end == end
    &&& t.line@ == line
}

/// How many tokens of kind `k` a sequence holds.
pub open spec fn count_kind(s: Seq<Token>, k: TokenKind) -> int
    decreases s.len(),
{
    if s.len() == 0 {
        0
    } else {
        count_kind(s.drop_last(), k) + if s.last().kind == k {
            1int
        } else {
            0int
        }
    }
}

/// The five fields of one token, as ghost data, for stating what a scan
/// emits without building executable tokens in specifications.
pub struct TokShape {
    pub kind: TokenKind,
    pub text: Seq<char>,
    pub start: Position,
    pub end: Position,
    pub line: Seq<char>,
}

pub open spec fn shape_of(t: Token) -> TokShape {
    TokShape { kind: t.kind, text: t.text@, start: t.start, end: t.end, line: t.line@ }
}

pub open spec fn shapes_of(s: Seq<Token>) -> Seq<TokShape> {
    s.map_values(|t: Token| shape_of(t))
}

pub proof fn lemma_shapes_push(s: Seq<Token>, t: Token)
    ensures
        shapes_of(s.push(t)) == shapes_of(s).push(shape_of(t)),
{
    assert(shapes_of(s.push(t)) =~= shapes_of(s).push(shape_of(t)));
}

pub proof fn lemma_count_kind_push(s: Seq<Token>, t: Token, k: TokenKind)
    ensures
        count_kind(s.push(t), k) == count_kind(s, k) + if t.kind == k {
            1int
        } else {
            0int
        },
{
    assert(s.push(t).drop_last() =~= s);
    assert(s.push(t).last() == t);
}

} // verus!

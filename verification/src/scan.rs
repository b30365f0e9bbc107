//! The lexeme classifier: given a position in a physical line, find the
//! longest lexeme of the lexical grammar starting at the first significant
//! character, together with its category.  Also the indentation-column
//! measurement for logical line starts.

use crate::chars::in_class;
use crate::chars::is_digit_char;
use crate::chars::is_ident_char;
use crate::chars::class_char;
use crate::chars::CharClass;
use crate::strscan::find_opener;
use crate::strscan::opener_at;
use crate::strscan::sq_scan;
use crate::strscan::sq_scan_exec;
use crate::strscan::SqEnd;
use vstd::prelude::*;

verus! {

/// The first position at or after `i` whose character is not in `cls`
/// (the line's length if the class runs to the end).
pub open spec fn skip_class(line: Seq<char>, i: int, cls: CharClass) -> int
    decreases line.len() - i when i <= line.len()
{
    if i >= line.len() {
        line.len() as int
    } else if in_class(cls, line[i]) {
        skip_class(line, i + 1, cls)
    } else {
        i
    }
}

/// Every character passed over by `skip_class` lies in the class, and the
/// character it stops on (if any) does not.
pub proof fn lemma_skip_class_range(line: Seq<char>, i: int, cls: CharClass)
    requires
        0 <= i <= line.len(),
    ensures
        i <= skip_class(line, i, cls) <= line.len(),
        forall|k: int| i <= k < skip_class(line, i, cls) ==> in_class(cls, #[trigger] line[k]),
        skip_class(line, i, cls) < line.len() ==> !in_class(cls, line[skip_class(line, i, cls)]),
    decreases line.len() - i,
{
    if i < line.len() && in_class(cls, line[i]) {
        lemma_skip_class_range(line, i + 1, cls);
    }
}

#[verifier::loop_isolation(false)]
pub fn scan_class(line: &Vec<char>, i: usize, cls: CharClass) -> (r: usize)
    requires
        i <= line@.len(),
    ensures
        r == skip_class(line@, i as int, cls),
        i <= r <= line@.len(),
        i < line@.len() && in_class(cls, line@[i as int]) ==> i < r,
{
    let n = line.len();
    let mut j = i;
    loop
        invariant
            i <= j <= n,
            skip_class(line@, i as int, cls) == skip_class(line@, j as int, cls),
        decreases n - j,
    {
        if j >= n {
            return j;
        }
        if !class_char(cls, line[j]) {
            return j;
        }
        j = j + 1;
    }
}

/// Where a number lexeme beginning at `j` ends.  The grammar: `0x`/`0b`/`0o`
/// radix literals; otherwise an integer part, an optional fraction after a
/// point, a well-formed exponent, and an optional imaginary suffix.
pub open spec fn number_end(line: Seq<char>, j: int) -> int {
    let n = line.len() as int;
    if line[j] == '0' && j + 1 < n && (line[j + 1] == 'x' || line[j + 1] == 'X') && j + 2 < n
        && in_class(CharClass::HexDigit, line[j + 2]) {
        skip_class(line, j + 2, CharClass::HexDigit)
    } else if line[j] == '0' && j + 1 < n && (line[j + 1] == 'b' || line[j + 1] == 'B') && j + 2 < n
        && in_class(CharClass::BinDigit, line[j + 2]) {
        skip_class(line, j + 2, CharClass::BinDigit)
    } else if line[j] == '0' && j + 1 < n && (line[j + 1] == 'o' || line[j + 1] == 'O') && j + 2 < n
        && in_class(CharClass::OctDigit, line[j + 2]) {
        skip_class(line, j + 2, CharClass::OctDigit)
    } else {
        let ip = skip_class(line, j, CharClass::Digit);
        let fp = if ip < n && line[ip] == '.' {
            skip_class(line, ip + 1, CharClass::Digit)
        } else {
            ip
        };
        let ep = if fp < n && (line[fp] == 'e' || line[fp] == 'E') {
            let s = if fp + 1 < n && (line[fp + 1] == '+' || line[fp + 1] == '-') {
                fp + 2
            } else {
                fp + 1
            };
            if s < n && is_digit_char(line[s]) {
                skip_class(line, s, CharClass::Digit)
            } else {
                fp
            }
        } else {
            fp
        };
        if ep < n && (line[ep] == 'j' || line[ep] == 'J') {
            ep + 1
        } else {
            ep
        }
    }
}

/// A number lexeme may begin here: a digit, or a point followed by a digit.
pub open spec fn number_start(line: Seq<char>, j: int) -> bool {
    is_digit_char(line[j]) || (line[j] == '.' && j + 1 < line.len() && is_digit_char(line[j + 1]))
}

pub fn number_scan(line: &Vec<char>, j: usize) -> (r: usize)
    requires
        j < line@.len(),
        number_start(line@, j as int),
    ensures
        r == number_end(line@, j as int),
        j < r <= line@.len(),
{
    let n = line.len();
    if line[j] == '0' && j + 1 < n && (line[j + 1] == 'x' || line[j + 1] == 'X') && j + 2 < n
        && class_char(CharClass::HexDigit, line[j + 2]) {
        scan_class(line, j + 2, CharClass::HexDigit)
    } else if line[j] == '0' && j + 1 < n && (line[j + 1] == 'b' || line[j + 1] == 'B') && j + 2 < n
        && class_char(CharClass::BinDigit, line[j + 2]) {
        scan_class(line, j + 2, CharClass::BinDigit)
    } else if line[j] == '0' && j + 1 < n && (line[j + 1] == 'o' || line[j + 1] == 'O') && j + 2 < n
        && class_char(CharClass::OctDigit, line[j + 2]) {
        scan_class(line, j + 2, CharClass::OctDigit)
    } else {
        let ip = scan_class(line, j, CharClass::Digit);
        let fp = if ip < n && line[ip] == '.' {
            scan_class(line, ip + 1, CharClass::Digit)
        } else {
            ip
        };
        let ep = if fp < n && (line[fp] == 'e' || line[fp] == 'E') {
            let s = if fp + 1 < n && (line[fp + 1] == '+' || line[fp + 1] == '-') {
                fp + 2
            } else {
                fp + 1
            };
            if s < n && class_char(CharClass::Digit, line[s]) {
                scan_class(line, s, CharClass::Digit)
            } else {
                fp
            }
        } else {
            fp
        };
        if ep < n && (line[ep] == 'j' || line[ep] == 'J') {
            ep + 1
        } else {
            ep
        }
    }
}

/// Three-character operators.
pub open spec fn is_op3(a: char, b: char, c: char) -> bool {
    (a == '*' && b == '*' && c == '=') || (a == '/' && b == '/' && c == '=') || (a == '>' && b
        == '>' && c == '=') || (a == '<' && b == '<' && c == '=') || (a == '.' && b == '.' && c
        == '.')
}

/// Two-character operators.
pub open spec fn is_op2(a: char, b: char) -> bool {
    ||| (a == '*' && b == '*')
    ||| (a == '/' && b == '/')
    ||| (a == '>' && b == '>')
    ||| (a == '<' && b == '<')
    ||| (b == '=' && (a == '<' || a == '>' || a == '=' || a == '!' || a == '+' || a == '-' || a
        == '*' || a == '/' || a == '%' || a == '&' || a == '|' || a == '^' || a == '@' || a == ':'))
    ||| (a == '-' && b == '>')
}

/// One-character operators, separators and brackets.
pub open spec fn is_op1(c: char) -> bool {
    c == '+' || c == '-' || c == '*' || c == '/' || c == '%' || c == '&' || c == '|' || c == '^'
        || c == '~' || c == '<' || c == '>' || c == '(' || c == ')' || c == '[' || c == ']' || c
        == '{' || c == '}' || c == ',' || c == ':' || c == '.' || c == ';' || c == '@' || c == '='
}

/// Where the longest operator lexeme at `j` ends; `j` itself if no operator
/// starts here.
pub open spec fn op_end(line: Seq<char>, j: int) -> int {
    let n = line.len() as int;
    if j + 2 < n && is_op3(line[j], line[j + 1], line[j + 2]) {
        j + 3
    } else if j + 1 < n && is_op2(line[j], line[j + 1]) {
        j + 2
    } else if is_op1(line[j]) {
        j + 1
    } else {
        j
    }
}

fn op3(a: char, b: char, c: char) -> (r: bool)
    ensures
        r == is_op3(a, b, c),
{
    (a == '*' && b == '*' && c == '=') || (a == '/' && b == '/' && c == '=') || (a == '>' && b
        == '>' && c == '=') || (a == '<' && b == '<' && c == '=') || (a == '.' && b == '.' && c
        == '.')
}

fn op2(a: char, b: char) -> (r: bool)
    ensures
        r == is_op2(a, b),
{
    (a == '*' && b == '*') || (a == '/' && b == '/') || (a == '>' && b == '>') || (a == '<' && b
        == '<') || (b == '=' && (a == '<' || a == '>' || a == '=' || a == '!' || a == '+' || a
        == '-' || a == '*' || a == '/' || a == '%' || a == '&' || a == '|' || a == '^' || a == '@'
        || a == ':')) || (a == '-' && b == '>')
}

fn op1(c: char) -> (r: bool)
    ensures
        r == is_op1(c),
{
    c == '+' || c == '-' || c == '*' || c == '/' || c == '%' || c == '&' || c == '|' || c == '^'
        || c == '~' || c == '<' || c == '>' || c == '(' || c == ')' || c == '[' || c == ']' || c
        == '{' || c == '}' || c == ',' || c == ':' || c == '.' || c == ';' || c == '@' || c == '='
}

pub fn op_scan(line: &Vec<char>, j: usize) -> (r: usize)
    requires
        j < line@.len(),
    ensures
        r == op_end(line@, j as int),
        j <= r <= line@.len(),
{
    let n = line.len();
    if n - j > 2 && op3(line[j], line[j + 1], line[j + 2]) {
        j + 3
    } else if j + 1 < n && op2(line[j], line[j + 1]) {
        j + 2
    } else if op1(line[j]) {
        j + 1
    } else {
        j
    }
}

/// The category a classified lexeme falls under.  String openers carry their
/// quote character, from which the family's terminator follows.
pub enum LexCat {
    /// A numeric literal.
    Num,
    /// A line terminator.
    LineEnd,
    /// A comment running to the line terminator.
    CommentTok,
    /// A triple-quote opener; the terminator was not part of the match.
    TripleOpen(char),
    /// A complete single-quoted string literal, both delimiters included.
    StrDone,
    /// A single-quoted string that ran to the end of the line without
    /// closing; the lexeme includes the line terminator.
    StrEol(char),
    /// An identifier or keyword.
    NameTok,
    /// A backslash followed by the line terminator: explicit continuation.
    BackslashNl,
    /// An operator, separator or bracket.
    OpTok,
}

/// One classified lexeme: its span within the line and its category.
pub struct Lexeme {
    pub start: usize,
    pub end: usize,
    pub cat: LexCat,
}

/// The lexeme at a significant (non-whitespace) position `j`, or `None` when
/// no category matches there.
pub open spec fn lex_at(line: Seq<char>, j: int) -> Option<Lexeme> {
    let n = line.len() as int;
    let c = line[j];
    if c == '\\' {
        if j + 1 < n && line[j + 1] == '\n' {
            Some(Lexeme { start: j as usize, end: (j + 2) as usize, cat: LexCat::BackslashNl })
        } else if j + 1 < n && line[j + 1] == '\r' && j + 2 < n && line[j + 2] == '\n' {
            Some(Lexeme { start: j as usize, end: (j + 3) as usize, cat: LexCat::BackslashNl })
        } else {
            None
        }
    } else if c == '#' {
        Some(
            Lexeme {
                start: j as usize,
                end: skip_class(line, j, CharClass::CommentBody) as usize,
                cat: LexCat::CommentTok,
            },
        )
    } else if opener_at(line, j) is Some {
        let (plen, q) = opener_at(line, j)->Some_0;
        let k = j + plen;
        if k + 2 < n && line[k + 1] == q && line[k + 2] == q {
            Some(Lexeme { start: j as usize, end: (k + 3) as usize, cat: LexCat::TripleOpen(q) })
        } else {
            match sq_scan(line, k + 1, q) {
                SqEnd::Closed(e) => Some(Lexeme { start: j as usize, end: e, cat: LexCat::StrDone }),
                SqEnd::ToEol(e) => Some(
                    Lexeme { start: j as usize, end: e, cat: LexCat::StrEol(q) },
                ),
                SqEnd::NoEnd => if is_ident_char(c) {
                    Some(
                        Lexeme {
                            start: j as usize,
                            end: skip_class(line, j, CharClass::Ident) as usize,
                            cat: LexCat::NameTok,
                        },
                    )
                } else {
                    None
                },
            }
        }
    } else if number_start(line, j) {
        Some(Lexeme { start: j as usize, end: number_end(line, j) as usize, cat: LexCat::Num })
    } else if c == '\n' {
        Some(Lexeme { start: j as usize, end: (j + 1) as usize, cat: LexCat::LineEnd })
    } else if c == '\r' {
        if j + 1 < n && line[j + 1] == '\n' {
            Some(Lexeme { start: j as usize, end: (j + 2) as usize, cat: LexCat::LineEnd })
        } else {
            Some(Lexeme { start: j as usize, end: (j + 1) as usize, cat: LexCat::LineEnd })
        }
    } else if is_ident_char(c) {
        Some(
            Lexeme {
                start: j as usize,
                end: skip_class(line, j, CharClass::Ident) as usize,
                cat: LexCat::NameTok,
            },
        )
    } else if op_end(line, j) > j {
        Some(Lexeme { start: j as usize, end: op_end(line, j) as usize, cat: LexCat::OpTok })
    } else {
        None
    }
}

pub proof fn lemma_number_end_bounds(line: Seq<char>, j: int)
    requires
        line.len() <= usize::MAX,
        0 <= j < line.len(),
        number_start(line, j),
    ensures
        j < number_end(line, j) <= line.len(),
{
    let n = line.len() as int;
    lemma_skip_class_range(line, j, CharClass::Digit);
    if j + 2 < n {
        lemma_skip_class_range(line, j + 2, CharClass::HexDigit);
        lemma_skip_class_range(line, j + 2, CharClass::BinDigit);
        lemma_skip_class_range(line, j + 2, CharClass::OctDigit);
    }
    let ip = skip_class(line, j, CharClass::Digit);
    if ip < n && line[ip] == '.' {
        lemma_skip_class_range(line, ip + 1, CharClass::Digit);
    }
    let fp = if ip < n && line[ip] == '.' {
        skip_class(line, ip + 1, CharClass::Digit)
    } else {
        ip
    };
    if fp < n && (line[fp] == 'e' || line[fp] == 'E') {
        let s = if fp + 1 < n && (line[fp + 1] == '+' || line[fp + 1] == '-') {
            fp + 2
        } else {
            fp + 1
        };
        if s < n && is_digit_char(line[s]) {
            lemma_skip_class_range(line, s, CharClass::Digit);
        }
    }
}

pub proof fn lemma_lex_at_bounds(line: Seq<char>, j: int)
    requires
        line.len() <= usize::MAX,
        0 <= j < line.len(),
    ensures
        lex_at(line, j) matches Some(lx) ==> j == lx.start && j < lx.end <= line.len(),
{
    let n = line.len() as int;
    lemma_skip_class_range(line, j, CharClass::CommentBody);
    lemma_skip_class_range(line, j, CharClass::Ident);
    if opener_at(line, j) is Some {
        let (plen, q) = opener_at(line, j)->Some_0;
        let k = j + plen;
        crate::strscan::lemma_sq_scan_bounds(line, k + 1, q);
    }
    if number_start(line, j) {
        lemma_number_end_bounds(line, j);
    }
}

/// What one classifier step yields: a lexeme, only whitespace to the end of
/// the line, or an unclassifiable character at the first significant
/// position.
pub enum ScanStep {
    Tok(Lexeme),
    OnlySpace,
    NoMatch,
}

/// One classifier step at `pos`: skip insignificant whitespace, then
/// classify the longest lexeme at the first significant position.
pub open spec fn spec_scan(line: Seq<char>, pos: int) -> ScanStep {
    let j = skip_class(line, pos, CharClass::Space);
    if j >= line.len() {
        ScanStep::OnlySpace
    } else {
        match lex_at(line, j) {
            None => ScanStep::NoMatch,
            Some(lx) => ScanStep::Tok(lx),
        }
    }
}

pub fn scan_at(line: &Vec<char>, pos: usize) -> (r: ScanStep)
    requires
        pos < line@.len(),
    ensures
        r == spec_scan(line@, pos as int),
        r matches ScanStep::Tok(lx) ==> pos <= lx.start < lx.end <= line@.len(),
        r matches ScanStep::Tok(lx) ==> forall|k: int|
            pos <= k < lx.start ==> crate::chars::is_space_char(#[trigger] line@[k]),
        r matches ScanStep::OnlySpace ==> forall|k: int|
            pos <= k < line@.len() ==> crate::chars::is_space_char(#[trigger] line@[k]),
{
    proof {
        lemma_skip_class_range(line@, pos as int, CharClass::Space);
    }
    let n = line.len();
    let j = scan_class(line, pos, CharClass::Space);
    if j >= n {
        return ScanStep::OnlySpace;
    }
    let c = line[j];
    if c == '\\' {
        if j + 1 < n && line[j + 1] == '\n' {
            ScanStep::Tok(Lexeme { start: j, end: j + 2, cat: LexCat::BackslashNl })
        } else if j + 1 < n && line[j + 1] == '\r' && j + 2 < n && line[j + 2] == '\n' {
            ScanStep::Tok(Lexeme { start: j, end: j + 3, cat: LexCat::BackslashNl })
        } else {
            ScanStep::NoMatch
        }
    } else if c == '#' {
        let e = scan_class(line, j, CharClass::CommentBody);
        assert(e > j);
        ScanStep::Tok(Lexeme { start: j, end: e, cat: LexCat::CommentTok })
    } else if let Some((plen, q)) = find_opener(line, j) {
        let k = j + plen;
        assert(k < n && line@[k as int] == q);
        if n - k > 2 && line[k + 1] == q && line[k + 2] == q {
            ScanStep::Tok(Lexeme { start: j, end: k + 3, cat: LexCat::TripleOpen(q) })
        } else {
            match sq_scan_exec(line, k + 1, q) {
                SqEnd::Closed(e) => ScanStep::Tok(Lexeme { start: j, end: e, cat: LexCat::StrDone }),
                SqEnd::ToEol(e) => ScanStep::Tok(
                    Lexeme { start: j, end: e, cat: LexCat::StrEol(q) },
                ),
                SqEnd::NoEnd => {
                    if class_char(CharClass::Ident, c) {
                        let e = scan_class(line, j, CharClass::Ident);
                        assert(e > j);
                        ScanStep::Tok(Lexeme { start: j, end: e, cat: LexCat::NameTok })
                    } else {
                        ScanStep::NoMatch
                    }
                },
            }
        }
    } else if class_char(CharClass::Digit, c) || (c == '.' && j + 1 < n && class_char(
        CharClass::Digit,
        line[j + 1],
    )) {
        let e = number_scan(line, j);
        ScanStep::Tok(Lexeme { start: j, end: e, cat: LexCat::Num })
    } else if c == '\n' {
        ScanStep::Tok(Lexeme { start: j, end: j + 1, cat: LexCat::LineEnd })
    } else if c == '\r' {
        if j + 1 < n && line[j + 1] == '\n' {
            ScanStep::Tok(Lexeme { start: j, end: j + 2, cat: LexCat::LineEnd })
        } else {
            ScanStep::Tok(Lexeme { start: j, end: j + 1, cat: LexCat::LineEnd })
        }
    } else if class_char(CharClass::Ident, c) {
        let e = scan_class(line, j, CharClass::Ident);
        assert(e > j);
        ScanStep::Tok(Lexeme { start: j, end: e, cat: LexCat::NameTok })
    } else {
        let e = op_scan(line, j);
        if e > j {
            ScanStep::Tok(Lexeme { start: j, end: e, cat: LexCat::OpTok })
        } else {
            ScanStep::NoMatch
        }
    }
}

} // verus!

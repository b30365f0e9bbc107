//! Recognition of string literals: opening quotes (with optional prefix
//! letters), single-quoted bodies within one line, and the search for the
//! closing sequence of an open string family.

use crate::chars::is_prefix_char;
use crate::chars::is_quote_char;
use crate::chars::prefix_char;
use crate::chars::quote_char;
use vstd::prelude::*;

verus! {

/// A string opener at position `j`: the number of prefix letters (0 to 2)
/// and the quote character that follows them.
pub open spec fn opener_at(line: Seq<char>, j: int) -> Option<(usize, char)> {
    let n = line.len() as int;
    if is_quote_char(line[j]) {
        Some((0usize, line[j]))
    } else if is_prefix_char(line[j]) && j + 1 < n && is_quote_char(line[j + 1]) {
        Some((1usize, line[j + 1]))
    } else if is_prefix_char(line[j]) && j + 1 < n && is_prefix_char(line[j + 1]) && j + 2 < n
        && is_quote_char(line[j + 2]) {
        Some((2usize, line[j + 2]))
    } else {
        None
    }
}

pub fn find_opener(line: &Vec<char>, j: usize) -> (r: Option<(usize, char)>)
    requires
        j < line@.len(),
    ensures
        r == opener_at(line@, j as int),
{
    let n = line.len();
    let c = line[j];
    if quote_char(c) {
        Some((0, c))
    } else if prefix_char(c) && j + 1 < n && quote_char(line[j + 1]) {
        Some((1, line[j + 1]))
    } else if prefix_char(c) && j + 1 < n && prefix_char(line[j + 1]) && j + 2 < n && quote_char(
        line[j + 2],
    ) {
        Some((2, line[j + 2]))
    } else {
        None
    }
}

/// How the scan of a single-quoted string body ends within its line.
///
/// `Closed` holds the offset just past the closing quote.  `ToEol` holds the
/// offset just past the line terminator: the literal ran to the end of the
/// line without closing (with or without an escaping backslash before the
/// terminator), so it asks to be continued on the next physical line.
/// `NoEnd` means the line ran out without a terminator (the final, partial
/// line of the input): the opener is not a string lexeme at all.
pub enum SqEnd {
    Closed(usize),
    ToEol(usize),
    NoEnd,
}

/// Scan a single-quoted string body from `m` (just past the opening quote
/// `q`).  A backslash escapes the character after it.
pub open spec fn sq_scan(line: Seq<char>, m: int, q: char) -> SqEnd
    decreases line.len() - m when m <= line.len()
{
    let n = line.len() as int;
    if m >= n {
        SqEnd::NoEnd
    } else if line[m] == q {
        SqEnd::Closed((m + 1) as usize)
    } else if line[m] == '\n' {
        SqEnd::ToEol((m + 1) as usize)
    } else if line[m] == '\\' {
        if m + 1 < n && line[m + 1] == '\n' {
            SqEnd::ToEol((m + 2) as usize)
        } else if m + 1 < n && line[m + 1] == '\r' && m + 2 < n && line[m + 2] == '\n' {
            SqEnd::ToEol((m + 3) as usize)
        } else if m + 1 < n {
            sq_scan(line, m + 2, q)
        } else {
            SqEnd::NoEnd
        }
    } else if line[m] == '\r' && m + 1 < n && line[m + 1] == '\n' {
        SqEnd::ToEol((m + 2) as usize)
    } else {
        sq_scan(line, m + 1, q)
    }
}

pub proof fn lemma_sq_scan_bounds(line: Seq<char>, m: int, q: char)
    requires
        line.len() <= usize::MAX,
        0 <= m <= line.len(),
    ensures
        sq_scan(line, m, q) matches SqEnd::Closed(e) ==> m < e <= line.len(),
        sq_scan(line, m, q) matches SqEnd::ToEol(e) ==> m < e <= line.len(),
    decreases line.len() - m,
{
    let n = line.len() as int;
    if m < n {
        if line[m] == q || line[m] == '\n' {
        } else if line[m] == '\\' {
            if m + 1 < n && line[m + 1] == '\n' {
            } else if m + 1 < n && line[m + 1] == '\r' && m + 2 < n && line[m + 2] == '\n' {
            } else if m + 1 < n {
                lemma_sq_scan_bounds(line, m + 2, q);
            }
        } else if line[m] == '\r' && m + 1 < n && line[m + 1] == '\n' {
        } else {
            lemma_sq_scan_bounds(line, m + 1, q);
        }
    }
}

#[verifier::loop_isolation(false)]
pub fn sq_scan_exec(line: &Vec<char>, start: usize, q: char) -> (r: SqEnd)
    requires
        start <= line@.len(),
    ensures
        r == sq_scan(line@, start as int, q),
        r matches SqEnd::Closed(e) ==> start < e <= line@.len(),
        r matches SqEnd::ToEol(e) ==> start < e <= line@.len(),
{
    let n = line.len();
    let mut m = start;
    loop
        invariant
            start <= m <= n,
            sq_scan(line@, start as int, q) == sq_scan(line@, m as int, q),
        decreases n - m,
    {
        if m >= n {
            return SqEnd::NoEnd;
        }
        let c = line[m];
        if c == q {
            return SqEnd::Closed(m + 1);
        }
        if c == '\n' {
            return SqEnd::ToEol(m + 1);
        }
        if c == '\\' {
            if m + 1 < n && line[m + 1] == '\n' {
                return SqEnd::ToEol(m + 2);
            }
            if m + 1 < n && line[m + 1] == '\r' && m + 2 < n && line[m + 2] == '\n' {
                return SqEnd::ToEol(m + 3);
            }
            if m + 1 < n {
                m = m + 2;
            } else {
                return SqEnd::NoEnd;
            }
        } else if c == '\r' && m + 1 < n && line[m + 1] == '\n' {
            return SqEnd::ToEol(m + 2);
        } else {
            m = m + 1;
        }
    }
}

/// The first offset just past an unescaped closing sequence of the string
/// family `(q, triple)` at or after `m`, if the line holds one.  A triple
/// family closes only on three quotes in a row, so a lone quote inside an
/// unfinished triple literal is never mistaken for its end.  A backslash
/// escapes the character after it.
pub open spec fn term_scan(line: Seq<char>, m: int, q: char, triple: bool) -> Option<int>
    decreases line.len() - m when m <= line.len()
{
    let n = line.len() as int;
    if m >= n {
        None
    } else if line[m] == '\\' {
        if m + 1 < n {
            term_scan(line, m + 2, q, triple)
        } else {
            None
        }
    } else if triple && line[m] == q && m + 2 < n && line[m + 1] == q && line[m + 2] == q {
        Some(m + 3)
    } else if !triple && line[m] == q {
        Some(m + 1)
    } else {
        term_scan(line, m + 1, q, triple)
    }
}

pub proof fn lemma_term_scan_bounds(line: Seq<char>, m: int, q: char, triple: bool)
    requires
        line.len() <= usize::MAX,
        0 <= m <= line.len(),
    ensures
        term_scan(line, m, q, triple) matches Some(e) ==> m < e <= line.len(),
    decreases line.len() - m,
{
    let n = line.len() as int;
    if m < n {
        if line[m] == '\\' {
            if m + 1 < n {
                lemma_term_scan_bounds(line, m + 2, q, triple);
            }
        } else if triple && line[m] == q && m + 2 < n && line[m + 1] == q && line[m + 2] == q {
        } else if !triple && line[m] == q {
        } else {
            lemma_term_scan_bounds(line, m + 1, q, triple);
        }
    }
}

#[verifier::loop_isolation(false)]
pub fn find_terminator(line: &Vec<char>, from: usize, q: char, triple: bool) -> (r: Option<usize>)
    requires
        from <= line@.len(),
    ensures
        match r {
            Some(e) => term_scan(line@, from as int, q, triple) == Some(e as int) && from < e
                <= line@.len(),
            None => term_scan(line@, from as int, q, triple) is None,
        },
{
    let n = line.len();
    let mut m = from;
    loop
        invariant
            from <= m <= n,
            term_scan(line@, from as int, q, triple) == term_scan(line@, m as int, q, triple),
        decreases n - m,
    {
        if m >= n {
            return None;
        }
        let c = line[m];
        if c == '\\' {
            if m + 1 < n {
                m = m + 2;
            } else {
                return None;
            }
        } else if triple && c == q && n - m > 2 && line[m + 1] == q && line[m + 2] == q {
            return Some(m + 3);
        } else if !triple && c == q {
            return Some(m + 1);
        } else {
            m = m + 1;
        }
    }
}

} // verus!

//! How deep a YAML text can nest, bounded before `roead` reads it.
//!
//! `roead` turns the tree of a YAML text into a document by a function that
//! calls itself once for each level of the tree, without counting. The levels
//! of a text are bounded here from above by one pass over its characters,
//! and a text whose bound is too high is not handed on. The highest bound
//! that is handed on is above that of the text of every document that this
//! library opens.
//!
//! The bound of a place in the text adds up what can enclose it. Collections
//! in block style: two for each column up to the indentation of the line,
//! since a collection is indented deeper than the one around it, but for a
//! sequence that may stand in the column of the key it belongs to; and one
//! for each `- `, `? ` and `: ` of the line. Collections in flow style: one
//! for each `[` and `{` so far that was not closed.
//!
//! A `]` or `}` closes a bracket only where that is certain. The bracket it
//! answers stands in the same line. Between the two no comment begins, and
//! every quote either opens a quoted scalar in the place where a value
//! begins, behind `[`, `{`, `,` or `: `, or closes that scalar, which holds
//! no backslash. If the opening bracket is one to the reader, the reader is
//! in flow style behind it, where a plain scalar holds none of `[]{},` and
//! no `: `: so a value does begin in those places, the quoted scalar is one
//! to the reader too, and the closing bracket behind it is none of its
//! characters. If the opening bracket is none to the reader, taking it for
//! closed takes nothing from the bound that stands for a bracket of the
//! reader's. A bracket met inside a quoted scalar counts as open and is
//! never closed, and so does every bracket of the line once a quote or a
//! `#` stands where it is not understood.

use crate::text::chars_of;
use vstd::prelude::*;

verus! {

/// The highest bound with which a text is handed on. `roead` reads a text
/// by a function that calls itself for each level and takes some kilobytes
/// of the stack each time: 128 levels stay below a megabyte. The text of a
/// document that this library opens has at most 19 levels, indented by two
/// columns each, so its bound is below 90.
pub const MAX_TEXT_NESTING: usize = 128;

/// Where the counters stop.
pub const CAP: usize = 1024;

/// What one pass knows at a place in the text.
#[derive(Clone, Copy, PartialEq, Eq, Structural)]
pub struct Scan {
    /// Brackets that are not taken for closed any more.
    pub carry: usize,
    /// Brackets of this line that may still be closed.
    pub stack: usize,
    /// The white space at the start of this line.
    pub indent: usize,
    /// The `- `, `? ` and `: ` of this line.
    pub marks: usize,
    /// The highest bound so far.
    pub worst: usize,
    /// Only white space so far in this line.
    pub leading: bool,
    /// The character before was `-`, `?` or `:`.
    pub mark: bool,
    /// The character before was `:`.
    pub colon: bool,
    /// A value may begin here: behind `[`, `{`, `,` or `: `.
    pub start: bool,
    /// Inside a quoted scalar: 1 in single quotes, 2 in double quotes.
    pub quote: u8,
}

/// One more, as far as the counters go.
pub open spec fn bumped(n: usize) -> usize {
    if n < CAP {
        (n + 1) as usize
    } else {
        n
    }
}

/// The sum, as far as the counters go.
pub open spec fn summed(a: usize, b: usize) -> usize {
    if a + b < CAP {
        (a + b) as usize
    } else {
        CAP
    }
}

/// The bound at a place: what is carried, what is open, two for each column
/// of the indentation and for the column after it, and the marks.
pub open spec fn bound(s: Scan) -> int {
    s.carry + s.stack + 2 * s.indent + 2 + s.marks
}

/// The counters are within their range.
pub open spec fn ranged(s: Scan) -> bool {
    s.carry <= CAP && s.stack <= CAP && s.indent <= CAP && s.marks <= CAP && s.worst <= 6 * CAP
}

/// The state with the highest bound kept up to date.
pub open spec fn noted(s: Scan) -> Scan {
    if bound(s) > s.worst {
        Scan { worst: bound(s) as usize, ..s }
    } else {
        s
    }
}

/// The state at the start of a text.
pub open spec fn fresh() -> Scan {
    Scan {
        carry: 0,
        stack: 0,
        indent: 0,
        marks: 0,
        worst: 2,
        leading: true,
        mark: false,
        colon: false,
        start: false,
        quote: 0,
    }
}

/// The state with the open brackets of the line given up: none of them is
/// taken for closed any more.
pub open spec fn given_up(s: Scan) -> Scan {
    Scan {
        carry: summed(s.carry, s.stack),
        stack: 0,
        leading: false,
        mark: false,
        colon: false,
        start: false,
        ..s
    }
}

/// The state with nothing of what the character before was.
pub open spec fn passed(s: Scan) -> Scan {
    Scan { leading: false, mark: false, colon: false, start: false, ..s }
}

/// The state after a character inside a quoted scalar: its quote ends it, a
/// backslash gives the brackets of the line up, and a bracket counts as open
/// for good.
pub open spec fn quoted(s: Scan, c: char) -> Scan {
    if (s.quote == 1 && c == '\'') || (s.quote == 2 && c == '"') {
        Scan { quote: 0, ..passed(s) }
    } else if c == '\\' {
        Scan { quote: s.quote, ..given_up(s) }
    } else if c == '[' || c == '{' {
        Scan { carry: bumped(s.carry), ..s }
    } else {
        s
    }
}

/// The state after a character outside quoted scalars.
pub open spec fn plain(s: Scan, c: char) -> Scan {
    if c == ' ' || c == '\t' {
        Scan {
            indent: if s.leading {
                bumped(s.indent)
            } else {
                s.indent
            },
            marks: if s.mark {
                bumped(s.marks)
            } else {
                s.marks
            },
            start: s.start || s.colon,
            mark: false,
            colon: false,
            ..s
        }
    } else if c == '[' || c == '{' {
        Scan { stack: bumped(s.stack), start: true, ..passed(s) }
    } else if c == ']' || c == '}' {
        Scan {
            stack: if s.stack > 0 {
                (s.stack - 1) as usize
            } else {
                s.stack
            },
            ..passed(s)
        }
    } else if c == ',' {
        Scan { start: true, ..passed(s) }
    } else if c == '\'' || c == '"' {
        if s.stack == 0 {
            passed(s)
        } else if s.start {
            Scan {
                quote: if c == '"' {
                    2u8
                } else {
                    1u8
                },
                ..passed(s)
            }
        } else {
            given_up(s)
        }
    } else if c == '#' {
        given_up(s)
    } else if c == '-' || c == '?' {
        Scan { mark: true, ..passed(s) }
    } else if c == ':' {
        Scan { mark: true, colon: true, ..passed(s) }
    } else {
        passed(s)
    }
}

/// The state after one more character, the highest bound not yet noted.
pub open spec fn moved(s: Scan, c: char) -> Scan {
    if c == '\n' || c == '\r' {
        Scan { indent: 0, marks: 0, leading: true, quote: 0, ..given_up(s) }
    } else if s.quote != 0 {
        quoted(s, c)
    } else {
        plain(s, c)
    }
}

/// The state after one more character.
pub open spec fn step(s: Scan, c: char) -> Scan {
    noted(moved(s, c))
}

/// The state after the first `n` characters of a text.
pub open spec fn scanned_to(text: Seq<char>, n: int) -> Scan
    decreases n,
{
    if n <= 0 {
        fresh()
    } else {
        step(scanned_to(text, n - 1), text[n - 1])
    }
}

/// A text is shallow: its bound is nowhere above the highest that is handed
/// on.
pub open spec fn shallow(text: Seq<char>) -> bool {
    scanned_to(text, text.len() as int).worst <= MAX_TEXT_NESTING
}

fn bump(n: usize) -> (r: usize)
    ensures
        r == bumped(n),
{
    if n < CAP {
        n + 1
    } else {
        n
    }
}

fn give_up(s: Scan) -> (r: Scan)
    requires
        ranged(s),
    ensures
        r == given_up(s),
        ranged(r),
{
    let carry: usize = if s.carry + s.stack < CAP {
        s.carry + s.stack
    } else {
        CAP
    };
    Scan { carry, stack: 0, leading: false, mark: false, colon: false, start: false, ..s }
}

fn pass(s: Scan) -> (r: Scan)
    requires
        ranged(s),
    ensures
        r == passed(s),
        ranged(r),
{
    Scan { leading: false, mark: false, colon: false, start: false, ..s }
}

fn in_quote(s: Scan, c: char) -> (r: Scan)
    requires
        ranged(s),
    ensures
        r == quoted(s, c),
        ranged(r),
{
    if (s.quote == 1 && c == '\'') || (s.quote == 2 && c == '"') {
        Scan { quote: 0, ..pass(s) }
    } else if c == '\\' {
        Scan { quote: s.quote, ..give_up(s) }
    } else if c == '[' || c == '{' {
        Scan { carry: bump(s.carry), ..s }
    } else {
        s
    }
}

fn at_quote(s: Scan, c: char) -> (r: Scan)
    requires
        ranged(s),
        c == '\'' || c == '"',
    ensures
        r == plain(s, c),
        ranged(r),
{
    if s.stack == 0 {
        pass(s)
    } else if s.start {
        let quote: u8 = if c == '"' {
            2
        } else {
            1
        };
        Scan { quote, ..pass(s) }
    } else {
        give_up(s)
    }
}

fn at_space(s: Scan) -> (r: Scan)
    requires
        ranged(s),
    ensures
        r == plain(s, ' '),
        r == plain(s, '\t'),
        ranged(r),
{
    let indent = if s.leading {
        bump(s.indent)
    } else {
        s.indent
    };
    let marks = if s.mark {
        bump(s.marks)
    } else {
        s.marks
    };
    Scan { indent, marks, start: s.start || s.colon, mark: false, colon: false, ..s }
}

fn in_plain(s: Scan, c: char) -> (r: Scan)
    requires
        ranged(s),
    ensures
        r == plain(s, c),
        ranged(r),
{
    if c == ' ' || c == '\t' {
        at_space(s)
    } else if c == '[' || c == '{' {
        Scan { stack: bump(s.stack), start: true, ..pass(s) }
    } else if c == ']' || c == '}' {
        let stack: usize = if s.stack > 0 {
            s.stack - 1
        } else {
            s.stack
        };
        Scan { stack, ..pass(s) }
    } else if c == ',' {
        Scan { start: true, ..pass(s) }
    } else if c == '\'' || c == '"' {
        at_quote(s, c)
    } else if c == '#' {
        give_up(s)
    } else if c == '-' || c == '?' {
        Scan { mark: true, ..pass(s) }
    } else if c == ':' {
        Scan { mark: true, colon: true, ..pass(s) }
    } else {
        pass(s)
    }
}

fn note(s: Scan) -> (r: Scan)
    requires
        ranged(s),
    ensures
        r == noted(s),
        ranged(r),
{
    let here: usize = s.carry + s.stack + 2 * s.indent + 2 + s.marks;
    if here > s.worst {
        Scan { worst: here, ..s }
    } else {
        s
    }
}

/// Takes one more character.
pub fn advance(s: Scan, c: char) -> (r: Scan)
    requires
        ranged(s),
    ensures
        r == step(s, c),
        ranged(r),
{
    let next = if c == '\n' || c == '\r' {
        Scan { indent: 0, marks: 0, leading: true, quote: 0, ..give_up(s) }
    } else if s.quote != 0 {
        in_quote(s, c)
    } else {
        in_plain(s, c)
    };
    note(next)
}

/// Decides `shallow`.
pub fn check_shallow(text: &str) -> (r: bool)
    ensures
        r == shallow(text@),
{
    let chars = chars_of(text);
    let mut state = Scan {
        carry: 0,
        stack: 0,
        indent: 0,
        marks: 0,
        worst: 2,
        leading: true,
        mark: false,
        colon: false,
        start: false,
        quote: 0,
    };
    let mut i: usize = 0;
    while i < chars.len()
        invariant
            i <= chars.len(),
            chars@ == text@,
            ranged(state),
            state == scanned_to(text@, i as int),
        decreases chars.len() - i,
    {
        state = advance(state, chars[i]);
        i += 1;
    }
    state.worst <= MAX_TEXT_NESTING
}

} // verus!

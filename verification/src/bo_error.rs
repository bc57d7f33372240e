//! The structured diagnostic produced by the scanner and the parser: a
//! message and the character offset at which the condition was detected,
//! with pure line-oriented rendering against the original source text.

use vstd::prelude::*;

use vstd::string::StrSliceExecFns;
use vstd::string::StringExecFns;

verus! {

/// A diagnostic: a human-readable message and the zero-based character
/// offset in the source text at which the condition was detected. Once
/// produced by a pass it is immutable; rendering below is a pure
/// computation over the diagnostic and the original source text.
#[derive(Clone, Debug)]
pub struct BoError {
    pub message: String,
    pub char_idx: usize,
}

/// How many line feeds stand strictly before position `p`.
pub open spec fn newlines_before(s: Seq<char>, p: int) -> int
    decreases p,
{
    if p <= 0 {
        0
    } else {
        newlines_before(s, p - 1) + if s[p - 1] == '\n' {
            1int
        } else {
            0int
        }
    }
}

/// The position just after the last line feed strictly before `p`: where
/// the line containing `p` begins.
pub open spec fn line_start_at(s: Seq<char>, p: int) -> int
    decreases p,
{
    if p <= 0 {
        0
    } else if s[p - 1] == '\n' {
        p
    } else {
        line_start_at(s, p - 1)
    }
}

/// The first position at or after `p` holding a line feed, or the length
/// of `s`: where the line containing `p` ends.
pub open spec fn line_end_at(s: Seq<char>, p: int) -> int
    decreases s.len() - p,
{
    if p < 0 || p >= s.len() {
        s.len() as int
    } else if s[p] == '\n' {
        p
    } else {
        line_end_at(s, p + 1)
    }
}

/// The length of the caret line: it reaches the caret column, and at least
/// the length of the source line.
pub open spec fn caret_len(col: int, linelen: int) -> int {
    if col + 1 >= linelen {
        col + 1
    } else {
        linelen
    }
}

/// The caret line: a `^` in the caret column, dashes everywhere else,
/// padded with dashes to at least the source line's length.
pub open spec fn caret_text(col: int, linelen: int) -> Seq<char> {
    Seq::new(
        caret_len(col, linelen) as nat,
        |k: int|
            if k == col {
                '^'
            } else {
                '-'
            },
    )
}

/// What `render` produces for a caller to print: the one-based line
/// number of the diagnosed position, the message, the text of that line,
/// and a caret line marking the position within it.
pub struct Rendered {
    pub line_number: usize,
    pub message: String,
    pub line: String,
    pub caret: String,
}

impl BoError {
    /// Renders this diagnostic against the original source text: the
    /// one-based number of the line holding the recorded position (a
    /// position past the end counts as the end), that line's text, and a
    /// caret line whose `^` stands under the offending position. A pure
    /// computation; printing is the caller's concern.
    pub fn render(&self, src: &str) -> (r: Rendered)
        requires
            src@.len() < usize::MAX,
        ensures
            ({
                let s = src@;
                let p = if self.char_idx as int <= s.len() {
                    self.char_idx as int
                } else {
                    s.len() as int
                };
                let ls = line_start_at(s, p);
                let le = line_end_at(s, p);
                &&& r.line_number as int == 1 + newlines_before(s, p)
                &&& r.message@ == self.message@
                &&& r.line@ == s.subrange(ls, le)
                &&& r.caret@ == caret_text(p - ls, le - ls)
            }),
    {
        let ghost s = src@;
        let n = src.unicode_len();
        let p: usize = if self.char_idx <= n {
            self.char_idx
        } else {
            n
        };
        let mut ln: usize = 1;
        let mut ls: usize = 0;
        let mut k: usize = 0;
        while k < p
            invariant
                n == s.len(),
                n < usize::MAX,
                s == src@,
                p <= n,
                k <= p,
                ln <= k + 1,
                ln as int == 1 + newlines_before(s, k as int),
                ls as int == line_start_at(s, k as int),
                ls <= k,
            decreases p - k,
        {
            if src.get_char(k) == '\n' {
                ln = ln + 1;
                ls = k + 1;
            }
            k = k + 1;
        }
        let mut le: usize = p;
        while le < n && src.get_char(le) != '\n'
            invariant
                n == s.len(),
                s == src@,
                p <= le <= n,
                line_end_at(s, p as int) == line_end_at(s, le as int),
            decreases n - le,
        {
            le = le + 1;
        }
        proof {
            assert(line_end_at(s, p as int) == le as int);
        }
        let line = src.substring_char(ls, le).to_owned();
        let col = p - ls;
        let linelen = le - ls;
        let total: usize = if col + 1 >= linelen {
            col + 1
        } else {
            linelen
        };
        proof {
            reveal_strlit("-");
            reveal_strlit("^");
        }
        let mut caret = String::new();
        let mut m: usize = 0;
        while m < total
            invariant
                m <= total,
                total as int == caret_len(col as int, linelen as int),
                caret@ =~= Seq::new(
                    m as nat,
                    |q: int|
                        if q == col as int {
                            '^'
                        } else {
                            '-'
                        },
                ),
                "-"@ =~= seq!['-'],
                "^"@ =~= seq!['^'],
            decreases total - m,
        {
            if m == col {
                caret.append("^");
            } else {
                caret.append("-");
            }
            proof {
                assert(caret@ =~= Seq::new(
                    (m + 1) as nat,
                    |q: int|
                        if q == col as int {
                            '^'
                        } else {
                            '-'
                        },
                ));
            }
            m = m + 1;
        }
        proof {
            assert(caret@ =~= caret_text(col as int, linelen as int));
        }
        Rendered { line_number: ln, message: self.message.clone(), line, caret }
    }
}

} // verus!

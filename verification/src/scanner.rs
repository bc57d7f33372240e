//! The lexical scanner: a single left-to-right pass over the source text
//! that produces an ordered token sequence, or the first error it meets.
//!
//! The behaviour of the pass is pinned down by `spec_scan`, a recursive
//! ghost description of the token found at each position; `Scanner::scan`
//! is proved to return exactly what `spec_scan` describes.

use vstd::prelude::*;

use crate::bo_error::BoError;
use crate::common::err_matches;
use crate::common::kind_matches;
use crate::common::lit_matches;
use crate::common::token_matches;
use crate::common::tokens_match;
use crate::common::Keyword;
use crate::common::Op;
use crate::common::SpecErr;
use crate::common::SpecLit;
use crate::common::SpecToken;
use crate::common::SpecTokenKind;
use crate::common::Token;
use crate::common::TokenType;
use crate::common::Value;
use vstd::string::StrSliceExecFns;
use vstd::string::StringExecFns;

verus! {

/// ASCII whitespace: space, horizontal tab, line feed, form feed, carriage
/// return. Whitespace separates tokens and is not represented in the stream.
pub open spec fn is_ws_char(c: char) -> bool {
    c == ' ' || c == '\t' || c == '\n' || c == '\u{c}' || c == '\r'
}

/// An ASCII decimal digit.
pub open spec fn is_digit_char(c: char) -> bool {
    '0' <= c && c <= '9'
}

/// Whether a character is a Unicode letter: the value of
/// `char::is_alphabetic`, a fixed function of the character alone, left
/// unspecified here and supplied by the trusted wrapper below.
pub uninterp spec fn is_unicode_alpha(c: char) -> bool;

/// Whether a character is a Unicode letter or digit: the value of
/// `char::is_alphanumeric`, a fixed function of the character alone, left
/// unspecified here and supplied by the trusted wrapper below.
pub uninterp spec fn is_unicode_alnum(c: char) -> bool;

/// A character that may begin an identifier: a letter or underscore.
pub open spec fn is_ident_start_char(c: char) -> bool {
    is_unicode_alpha(c) || c == '_'
}

/// A character that may continue an identifier: a letter or digit.
pub open spec fn is_ident_cont_char(c: char) -> bool {
    is_unicode_alnum(c)
}

/// The spelling of each operator, as it appears in source text.
pub open spec fn op_text(o: Op) -> Seq<char> {
    match o {
        Op::Plus => seq!['+'],
        Op::PlusEqual => seq!['+', '='],
        Op::Minus => seq!['-'],
        Op::MinusEqual => seq!['-', '='],
        Op::Star => seq!['*'],
        Op::StarEqual => seq!['*', '='],
        Op::FrontSlash => seq!['/'],
        Op::FrontSlashEqual => seq!['/', '='],
        Op::Percent => seq!['%'],
        Op::PercentEqual => seq!['%', '='],
        Op::Bang => seq!['!'],
        Op::BangEqual => seq!['!', '='],
        Op::Equal => seq!['='],
        Op::EqualEqual => seq!['=', '='],
        Op::Less => seq!['<'],
        Op::LessEqual => seq!['<', '='],
        Op::LessLess => seq!['<', '<'],
        Op::Greater => seq!['>'],
        Op::GreaterEqual => seq!['>', '='],
        Op::GreaterGreater => seq!['>', '>'],
        Op::Carrot => seq!['^'],
        Op::CarrotEqual => seq!['^', '='],
        Op::Tilde => seq!['~'],
        Op::TildeEqual => seq!['~', '='],
        Op::Colon => seq![':'],
        Op::ColonColon => seq![':', ':'],
        Op::Semicolon => seq![';'],
        Op::Stop => seq!['.'],
        Op::StopStop => seq!['.', '.'],
        Op::Pipe => seq!['|'],
        Op::PipePipe => seq!['|', '|'],
        Op::PipeEqual => seq!['|', '='],
        Op::And => seq!['&'],
        Op::AndAnd => seq!['&', '&'],
        Op::AndEqual => seq!['&', '='],
        Op::Comma => seq![','],
        Op::LeftParen => seq!['('],
        Op::RightParen => seq![')'],
        Op::LeftBracket => seq!['['],
        Op::RightBracket => seq![']'],
        Op::LeftBrace => seq!['{'],
        Op::RightBrace => seq!['}'],
    }
}

/// The spelling of each keyword.
pub open spec fn kw_text(k: Keyword) -> Seq<char> {
    match k {
        Keyword::Let => "let"@,
        Keyword::Pub => "pub"@,
        Keyword::Struct => "struct"@,
        Keyword::Import => "import"@,
        Keyword::From => "from"@,
        Keyword::If => "if"@,
        Keyword::Else => "else"@,
        Keyword::While => "while"@,
        Keyword::Loop => "loop"@,
        Keyword::Break => "break"@,
        Keyword::Continue => "continue"@,
        Keyword::Return => "return"@,
    }
}

/// The two-character operator beginning with `c1` and continued by `c2`, if
/// any. The scanner consults this before `single_op_of`, so the longest
/// spelling always wins.
pub open spec fn double_op_of(c1: char, c2: char) -> Option<Op> {
    match (c1, c2) {
        ('+', '=') => Some(Op::PlusEqual),
        ('-', '=') => Some(Op::MinusEqual),
        ('*', '=') => Some(Op::StarEqual),
        ('/', '=') => Some(Op::FrontSlashEqual),
        ('%', '=') => Some(Op::PercentEqual),
        ('!', '=') => Some(Op::BangEqual),
        ('=', '=') => Some(Op::EqualEqual),
        ('<', '=') => Some(Op::LessEqual),
        ('<', '<') => Some(Op::LessLess),
        ('>', '=') => Some(Op::GreaterEqual),
        ('>', '>') => Some(Op::GreaterGreater),
        ('^', '=') => Some(Op::CarrotEqual),
        ('~', '=') => Some(Op::TildeEqual),
        ('.', '.') => Some(Op::StopStop),
        ('|', '|') => Some(Op::PipePipe),
        ('|', '=') => Some(Op::PipeEqual),
        ('&', '&') => Some(Op::AndAnd),
        ('&', '=') => Some(Op::AndEqual),
        (':', ':') => Some(Op::ColonColon),
        _ => None,
    }
}

/// The one-character operator spelled `c`, if any.
pub open spec fn single_op_of(c: char) -> Option<Op> {
    match c {
        '+' => Some(Op::Plus),
        '-' => Some(Op::Minus),
        '*' => Some(Op::Star),
        '/' => Some(Op::FrontSlash),
        '%' => Some(Op::Percent),
        '!' => Some(Op::Bang),
        '=' => Some(Op::Equal),
        '<' => Some(Op::Less),
        '>' => Some(Op::Greater),
        '^' => Some(Op::Carrot),
        '~' => Some(Op::Tilde),
        '.' => Some(Op::Stop),
        '|' => Some(Op::Pipe),
        '&' => Some(Op::And),
        ',' => Some(Op::Comma),
        ':' => Some(Op::Colon),
        ';' => Some(Op::Semicolon),
        '(' => Some(Op::LeftParen),
        ')' => Some(Op::RightParen),
        '[' => Some(Op::LeftBracket),
        ']' => Some(Op::RightBracket),
        '{' => Some(Op::LeftBrace),
        '}' => Some(Op::RightBrace),
        _ => None,
    }
}

/// What an identifier-shaped word means: the spellings `true` and `false`
/// are Boolean literals, the fixed keyword spellings are keywords, and any
/// other word is an identifier.
pub open spec fn classify_word(w: Seq<char>) -> SpecTokenKind {
    if w == "true"@ {
        SpecTokenKind::Lit(SpecLit::Bool(true))
    } else if w == "false"@ {
        SpecTokenKind::Lit(SpecLit::Bool(false))
    } else if w == "let"@ {
        SpecTokenKind::Kw(Keyword::Let)
    } else if w == "pub"@ {
        SpecTokenKind::Kw(Keyword::Pub)
    } else if w == "struct"@ {
        SpecTokenKind::Kw(Keyword::Struct)
    } else if w == "import"@ {
        SpecTokenKind::Kw(Keyword::Import)
    } else if w == "from"@ {
        SpecTokenKind::Kw(Keyword::From)
    } else if w == "if"@ {
        SpecTokenKind::Kw(Keyword::If)
    } else if w == "else"@ {
        SpecTokenKind::Kw(Keyword::Else)
    } else if w == "while"@ {
        SpecTokenKind::Kw(Keyword::While)
    } else if w == "loop"@ {
        SpecTokenKind::Kw(Keyword::Loop)
    } else if w == "break"@ {
        SpecTokenKind::Kw(Keyword::Break)
    } else if w == "continue"@ {
        SpecTokenKind::Kw(Keyword::Continue)
    } else if w == "return"@ {
        SpecTokenKind::Kw(Keyword::Return)
    } else {
        SpecTokenKind::Ident(w)
    }
}

/// The first position at or after `i` that does not hold a digit.
pub open spec fn digit_run_end(s: Seq<char>, i: int) -> int
    decreases s.len() - i,
{
    if i < 0 || i >= s.len() || !is_digit_char(s[i]) {
        i
    } else {
        digit_run_end(s, i + 1)
    }
}

/// The first position at or after `i` that does not hold an identifier
/// continuation character.
pub open spec fn word_end(s: Seq<char>, i: int) -> int
    decreases s.len() - i,
{
    if i < 0 || i >= s.len() || !is_ident_cont_char(s[i]) {
        i
    } else {
        word_end(s, i + 1)
    }
}

/// The first position at or after `i` holding a double quote, or the length
/// of `s` when there is none.
pub open spec fn close_quote(s: Seq<char>, i: int) -> int
    decreases s.len() - i,
{
    if i < 0 || i >= s.len() {
        s.len() as int
    } else if s[i] == '"' {
        i
    } else {
        close_quote(s, i + 1)
    }
}

/// Characterizes `digit_run_end`: it stays within bounds, everything before
/// it from `i` on is a digit, and it stops only at the end or at a non-digit.
pub proof fn lemma_digit_run_end(s: Seq<char>, i: int)
    requires
        0 <= i <= s.len(),
    ensures
        i <= digit_run_end(s, i) <= s.len(),
        forall|k: int| i <= k < digit_run_end(s, i) ==> is_digit_char(#[trigger] s[k]),
        digit_run_end(s, i) == s.len() || !is_digit_char(s[digit_run_end(s, i)]),
    decreases s.len() - i,
{
    if i < s.len() && is_digit_char(s[i]) {
        lemma_digit_run_end(s, i + 1);
    }
}

/// Characterizes `word_end` in the same way.
pub proof fn lemma_word_end(s: Seq<char>, i: int)
    requires
        0 <= i <= s.len(),
    ensures
        i <= word_end(s, i) <= s.len(),
        forall|k: int| i <= k < word_end(s, i) ==> is_ident_cont_char(#[trigger] s[k]),
        word_end(s, i) == s.len() || !is_ident_cont_char(s[word_end(s, i)]),
    decreases s.len() - i,
{
    if i < s.len() && is_ident_cont_char(s[i]) {
        lemma_word_end(s, i + 1);
    }
}

/// Characterizes `close_quote`: it stays within bounds, nothing before it
/// from `i` on is a quote, and it points at a quote unless it is the length.
pub proof fn lemma_close_quote(s: Seq<char>, i: int)
    requires
        0 <= i <= s.len(),
    ensures
        i <= close_quote(s, i) <= s.len(),
        forall|k: int| i <= k < close_quote(s, i) ==> #[trigger] s[k] != '"',
        close_quote(s, i) == s.len() || s[close_quote(s, i)] == '"',
    decreases s.len() - i,
{
    if i < s.len() && s[i] != '"' {
        lemma_close_quote(s, i + 1);
    }
}

/// The numeric value of a digit character.
pub open spec fn digit_val(c: char) -> int {
    c as int - '0' as int
}

/// The value of a run of digit characters read in base ten.
pub open spec fn digits_val(s: Seq<char>) -> int
    decreases s.len(),
{
    if s.len() == 0 {
        0
    } else {
        10 * digits_val(s.drop_last()) + digit_val(s.last())
    }
}

/// The literal beginning at position `i`, which holds a digit: an integer
/// literal, or a float literal when the digit run is followed by a dot and
/// at least one further digit. A dot not followed by a digit is not part of
/// the literal: it is left for the operator recognizer. An integer whose
/// digits exceed the signed 64-bit range is a malformed number, reported at
/// the start of the literal.
pub open spec fn spec_number_at(s: Seq<char>, i: int) -> Result<(SpecLit, int), SpecErr> {
    let j = digit_run_end(s, i);
    if j + 1 < s.len() && s[j] == '.' && is_digit_char(s[j + 1]) {
        let k = digit_run_end(s, j + 1);
        Ok((SpecLit::Float(s.subrange(i, j), s.subrange(j + 1, k)), k))
    } else {
        if digits_val(s.subrange(i, j)) <= i64::MAX as int {
            Ok((SpecLit::Int(digits_val(s.subrange(i, j)) as i64), j))
        } else {
            Err(SpecErr { msg: "Malformed number"@, idx: i })
        }
    }
}

/// The string literal beginning at position `i`, which holds the opening
/// quote: the characters up to the next quote, with no escape processing.
/// Reaching the end of input first is an unclosed string, reported at the
/// opening quote.
pub open spec fn spec_string_at(s: Seq<char>, i: int) -> Result<(SpecLit, int), SpecErr> {
    let j = close_quote(s, i + 1);
    if j >= s.len() {
        Err(SpecErr { msg: "Unclosed string"@, idx: i })
    } else {
        Ok((SpecLit::Str(s.subrange(i + 1, j)), j + 1))
    }
}

/// The token beginning at position `i`, which holds a non-whitespace
/// character, together with the position just after it. Recognizers are
/// tried in order: operator (longest spelling first), number, string,
/// identifier-or-keyword; a character none of them accepts is an error at
/// `i`.
pub open spec fn spec_token_at(s: Seq<char>, i: int) -> Result<(SpecToken, int), SpecErr> {
    let c = s[i];
    if i + 1 < s.len() && double_op_of(c, s[i + 1]) is Some {
        Ok(
            (
                SpecToken { kind: SpecTokenKind::Op(double_op_of(c, s[i + 1])->0), idx: i },
                i + 2,
            ),
        )
    } else if single_op_of(c) is Some {
        Ok((SpecToken { kind: SpecTokenKind::Op(single_op_of(c)->0), idx: i }, i + 1))
    } else if is_digit_char(c) {
        match spec_number_at(s, i) {
            Ok((l, j)) => Ok((SpecToken { kind: SpecTokenKind::Lit(l), idx: i }, j)),
            Err(e) => Err(e),
        }
    } else if c == '"' {
        match spec_string_at(s, i) {
            Ok((l, j)) => Ok((SpecToken { kind: SpecTokenKind::Lit(l), idx: i }, j)),
            Err(e) => Err(e),
        }
    } else if is_ident_start_char(c) {
        let j = word_end(s, i + 1);
        Ok((SpecToken { kind: classify_word(s.subrange(i, j)), idx: i }, j))
    } else {
        Err(SpecErr { msg: "Unexpected character"@, idx: i })
    }
}

/// A successful step consumes at least one character and stays in bounds.
pub proof fn lemma_token_at_advances(s: Seq<char>, i: int)
    requires
        0 <= i < s.len(),
    ensures
        spec_token_at(s, i) matches Ok((t, j)) ==> i < j <= s.len(),
{
    lemma_digit_run_end(s, i);
    if i + 1 <= s.len() {
        lemma_digit_run_end(s, i + 1);
        lemma_word_end(s, i + 1);
        lemma_close_quote(s, i + 1);
    }
    if is_digit_char(s[i]) {
        let j = digit_run_end(s, i);
        if j + 1 < s.len() && s[j] == '.' && is_digit_char(s[j + 1]) {
            lemma_digit_run_end(s, j + 1);
        }
    }
}

/// The token sequence of the source text from position `i` on: whitespace
/// produces nothing, every other position starts a token, and the first
/// failure is the result of the whole scan.
pub open spec fn spec_scan_from(s: Seq<char>, i: int) -> Result<Seq<SpecToken>, SpecErr>
    decreases s.len() - i,
    via spec_scan_from_dec
{
    if i < 0 || i >= s.len() {
        Ok(Seq::empty())
    } else if is_ws_char(s[i]) {
        spec_scan_from(s, i + 1)
    } else {
        match spec_token_at(s, i) {
            Ok((t, j)) => match spec_scan_from(s, j) {
                Ok(ts) => Ok(seq![t] + ts),
                Err(e) => Err(e),
            },
            Err(e) => Err(e),
        }
    }
}

#[via_fn]
proof fn spec_scan_from_dec(s: Seq<char>, i: int) {
    if 0 <= i < s.len() && !is_ws_char(s[i]) {
        lemma_token_at_advances(s, i);
    }
}

/// The token sequence of the whole source text, or the first error met.
pub open spec fn spec_scan(s: Seq<char>) -> Result<Seq<SpecToken>, SpecErr> {
    spec_scan_from(s, 0)
}

/// Tokens already produced, put in front of the outcome of the rest of the
/// scan; an error swallows everything produced before it.
pub open spec fn scan_prepend(p: Seq<SpecToken>, r: Result<Seq<SpecToken>, SpecErr>) -> Result<
    Seq<SpecToken>,
    SpecErr,
> {
    match r {
        Ok(ts) => Ok(p + ts),
        Err(e) => Err(e),
    }
}

/// Reading one more digit multiplies the value read so far by ten and adds
/// the digit.
proof fn lemma_digits_val_step(s: Seq<char>, i: int, k: int)
    requires
        0 <= i <= k < s.len(),
    ensures
        digits_val(s.subrange(i, k + 1)) == 10 * digits_val(s.subrange(i, k)) + digit_val(s[k]),
{
    let a = s.subrange(i, k + 1);
    assert(a.drop_last() =~= s.subrange(i, k));
    assert(a.last() == s[k]);
}

/// The value of a digit run is never negative.
proof fn lemma_digits_val_nonneg(s: Seq<char>)
    requires
        forall|k: int| 0 <= k < s.len() ==> is_digit_char(#[trigger] s[k]),
    ensures
        digits_val(s) >= 0,
    decreases s.len(),
{
    if s.len() > 0 {
        assert(forall|k: int|
            0 <= k < s.drop_last().len() ==> is_digit_char(#[trigger] s.drop_last()[k]));
        lemma_digits_val_nonneg(s.drop_last());
    }
}

/// Extending a digit run never shrinks its value.
proof fn lemma_digits_val_mono(s: Seq<char>, i: int, k: int, j: int)
    requires
        0 <= i <= k <= j <= s.len(),
        forall|m: int| i <= m < j ==> is_digit_char(#[trigger] s[m]),
    ensures
        digits_val(s.subrange(i, k)) <= digits_val(s.subrange(i, j)),
    decreases j - k,
{
    if k < j {
        lemma_digits_val_step(s, i, k);
        assert(forall|m: int|
            0 <= m < s.subrange(i, k).len() ==> is_digit_char(#[trigger] s.subrange(i, k)[m]));
        lemma_digits_val_nonneg(s.subrange(i, k));
        lemma_digits_val_mono(s, i, k + 1, j);
    }
}

/// ASCII whitespace, decided in executable code.
fn ws_char(c: char) -> (r: bool)
    ensures
        r == is_ws_char(c),
{
    c == ' ' || c == '\t' || c == '\n' || c == '\u{c}' || c == '\r'
}

/// An ASCII digit, decided in executable code.
fn digit_char(c: char) -> (r: bool)
    ensures
        r == is_digit_char(c),
{
    '0' <= c && c <= '9'
}

/// Relies on char::is_alphabetic: whether `c` is a Unicode letter. The
/// result depends on the character alone; it gives `is_unicode_alpha` its
/// meaning.
#[verifier::external_body]
fn alpha_char(c: char) -> (r: bool)
    ensures
        r == is_unicode_alpha(c),
{
    c.is_alphabetic()
}

/// Relies on char::is_alphanumeric: whether `c` is a Unicode letter or
/// digit. The result depends on the character alone; it gives
/// `is_unicode_alnum` its meaning.
#[verifier::external_body]
fn alnum_char(c: char) -> (r: bool)
    ensures
        r == is_unicode_alnum(c),
{
    c.is_alphanumeric()
}

/// An identifier start, decided in executable code.
fn ident_start_char(c: char) -> (r: bool)
    ensures
        r == is_ident_start_char(c),
{
    alpha_char(c) || c == '_'
}

/// An identifier continuation, decided in executable code.
fn ident_cont_char(c: char) -> (r: bool)
    ensures
        r == is_ident_cont_char(c),
{
    alnum_char(c)
}

/// The two-character operator table, decided in executable code.
fn double_op(c1: char, c2: char) -> (r: Option<Op>)
    ensures
        r == double_op_of(c1, c2),
{
    match (c1, c2) {
        ('+', '=') => Some(Op::PlusEqual),
        ('-', '=') => Some(Op::MinusEqual),
        ('*', '=') => Some(Op::StarEqual),
        ('/', '=') => Some(Op::FrontSlashEqual),
        ('%', '=') => Some(Op::PercentEqual),
        ('!', '=') => Some(Op::BangEqual),
        ('=', '=') => Some(Op::EqualEqual),
        ('<', '=') => Some(Op::LessEqual),
        ('<', '<') => Some(Op::LessLess),
        ('>', '=') => Some(Op::GreaterEqual),
        ('>', '>') => Some(Op::GreaterGreater),
        ('^', '=') => Some(Op::CarrotEqual),
        ('~', '=') => Some(Op::TildeEqual),
        ('.', '.') => Some(Op::StopStop),
        ('|', '|') => Some(Op::PipePipe),
        ('|', '=') => Some(Op::PipeEqual),
        ('&', '&') => Some(Op::AndAnd),
        ('&', '=') => Some(Op::AndEqual),
        (':', ':') => Some(Op::ColonColon),
        _ => None,
    }
}

/// The one-character operator table, decided in executable code.
fn single_op(c: char) -> (r: Option<Op>)
    ensures
        r == single_op_of(c),
{
    match c {
        '+' => Some(Op::Plus),
        '-' => Some(Op::Minus),
        '*' => Some(Op::Star),
        '/' => Some(Op::FrontSlash),
        '%' => Some(Op::Percent),
        '!' => Some(Op::Bang),
        '=' => Some(Op::Equal),
        '<' => Some(Op::Less),
        '>' => Some(Op::Greater),
        '^' => Some(Op::Carrot),
        '~' => Some(Op::Tilde),
        '.' => Some(Op::Stop),
        '|' => Some(Op::Pipe),
        '&' => Some(Op::And),
        ',' => Some(Op::Comma),
        ':' => Some(Op::Colon),
        ';' => Some(Op::Semicolon),
        '(' => Some(Op::LeftParen),
        ')' => Some(Op::RightParen),
        '[' => Some(Op::LeftBracket),
        ']' => Some(Op::RightBracket),
        '{' => Some(Op::LeftBrace),
        '}' => Some(Op::RightBrace),
        _ => None,
    }
}

/// Character-for-character equality of two string slices.
fn str_eq(a: &str, b: &str) -> (r: bool)
    ensures
        r == (a@ == b@),
{
    let n1 = a.unicode_len();
    let n2 = b.unicode_len();
    if n1 != n2 {
        proof {
            if a@ == b@ {
                assert(a@.len() == b@.len());
            }
        }
        return false;
    }
    let mut i: usize = 0;
    while i < n1
        invariant
            n1 == a@.len(),
            n1 == b@.len(),
            i <= n1,
            forall|k: int| 0 <= k < i ==> a@[k] == b@[k],
        decreases n1 - i,
    {
        if a.get_char(i) != b.get_char(i) {
            proof {
                if a@ == b@ {
                    assert(a@[i as int] == b@[i as int]);
                }
            }
            return false;
        }
        i = i + 1;
    }
    proof {
        assert(a@ =~= b@);
    }
    true
}

/// Scans the numeric literal beginning at `i`: a digit run, optionally
/// followed by a dot and a further digit run.
fn scan_number(src: &str, i: usize, n: usize) -> (r: Result<(Value, usize), BoError>)
    requires
        n == src@.len(),
        i < n,
        is_digit_char(src@[i as int]),
    ensures
        match r {
            Ok((v, j)) => spec_number_at(src@, i as int) matches Ok((l, jj)) && j as int == jj
                && lit_matches(l, v),
            Err(e) => spec_number_at(src@, i as int) matches Err(se) && err_matches(se, e),
        },
{
    let ghost s = src@;
    let mut j: usize = i;
    while j < n && digit_char(src.get_char(j))
        invariant
            n == s.len(),
            s == src@,
            i <= j <= n,
            digit_run_end(s, i as int) == digit_run_end(s, j as int),
        decreases n - j,
    {
        j = j + 1;
    }
    proof {
        assert(digit_run_end(s, i as int) == j as int);
        lemma_digit_run_end(s, i as int);
    }
    if j < n && src.get_char(j) == '.' && j + 1 < n && digit_char(src.get_char(j + 1)) {
        let mut k: usize = j + 1;
        while k < n && digit_char(src.get_char(k))
            invariant
                n == s.len(),
                s == src@,
                j + 1 <= k <= n,
                digit_run_end(s, j + 1 as int) == digit_run_end(s, k as int),
            decreases n - k,
        {
            k = k + 1;
        }
        proof {
            assert(digit_run_end(s, j + 1 as int) == k as int);
        }
        let whole = src.substring_char(i, j).to_owned();
        let frac = src.substring_char(j + 1, k).to_owned();
        Ok((Value::Float(whole, frac), k))
    } else {
        let mut acc: i64 = 0;
        let mut k: usize = i;
        while k < j
            invariant
                n == s.len(),
                s == src@,
                i <= k <= j <= n,
                j as int == digit_run_end(s, i as int),
                !(j + 1 < s.len() && s[j as int] == '.' && is_digit_char(s[j as int + 1])),
                forall|m: int| i <= m < j ==> is_digit_char(#[trigger] s[m]),
                0 <= acc,
                acc as int == digits_val(s.subrange(i as int, k as int)),
            decreases j - k,
        {
            let c = src.get_char(k);
            let d: u32 = c as u32 - '0' as u32;
            let di: i64 = d as i64;
            proof {
                assert(is_digit_char(s[k as int]));
                assert(0 <= di <= 9);
                assert(digit_val(s[k as int]) == di as int);
            }
            if acc > (i64::MAX - di) / 10 {
                proof {
                    lemma_digits_val_step(s, i as int, k as int);
                    assert(10 * (acc as int) + di as int > i64::MAX as int) by (nonlinear_arith)
                        requires
                            acc as int > (i64::MAX as int - di as int) / 10,
                            0 <= di as int <= 9,
                    ;
                    lemma_digits_val_mono(s, i as int, k as int + 1, j as int);
                }
                return Err(
                    BoError { message: String::from_str("Malformed number"), char_idx: i },
                );
            }
            proof {
                assert((acc as int) * 10 + di as int <= i64::MAX as int) by (nonlinear_arith)
                    requires
                        acc as int <= (i64::MAX as int - di as int) / 10,
                        0 <= acc as int,
                        0 <= di as int <= 9,
                ;
                lemma_digits_val_step(s, i as int, k as int);
            }
            acc = acc * 10 + di;
            k = k + 1;
        }
        Ok((Value::Int(acc), j))
    }
}

/// Scans the string literal beginning at the quote at `i`.
fn scan_string(src: &str, i: usize, n: usize) -> (r: Result<(Value, usize), BoError>)
    requires
        n == src@.len(),
        i < n,
        src@[i as int] == '"',
    ensures
        match r {
            Ok((v, j)) => spec_string_at(src@, i as int) matches Ok((l, jj)) && j as int == jj
                && lit_matches(l, v),
            Err(e) => spec_string_at(src@, i as int) matches Err(se) && err_matches(se, e),
        },
{
    let ghost s = src@;
    let mut j: usize = i + 1;
    while j < n && src.get_char(j) != '"'
        invariant
            n == s.len(),
            s == src@,
            i + 1 <= j <= n,
            close_quote(s, i + 1 as int) == close_quote(s, j as int),
        decreases n - j,
    {
        j = j + 1;
    }
    if j >= n {
        proof {
            assert(close_quote(s, i + 1 as int) == s.len());
        }
        Err(BoError { message: String::from_str("Unclosed string"), char_idx: i })
    } else {
        proof {
            assert(close_quote(s, i + 1 as int) == j as int);
        }
        let content = src.substring_char(i + 1, j).to_owned();
        Ok((Value::Str(content), j + 1))
    }
}

/// Scans the identifier-shaped word beginning at `i` and classifies it as a
/// Boolean literal, a keyword, or an identifier.
fn scan_word(src: &str, i: usize, n: usize) -> (r: (TokenType, usize))
    requires
        n == src@.len(),
        i < n,
        is_ident_start_char(src@[i as int]),
    ensures
        r.1 as int == word_end(src@, i as int + 1),
        kind_matches(
            classify_word(src@.subrange(i as int, word_end(src@, i as int + 1))),
            r.0,
        ),
{
    let ghost s = src@;
    let mut j: usize = i + 1;
    while j < n && ident_cont_char(src.get_char(j))
        invariant
            n == s.len(),
            s == src@,
            i + 1 <= j <= n,
            word_end(s, i + 1 as int) == word_end(s, j as int),
        decreases n - j,
    {
        j = j + 1;
    }
    proof {
        assert(word_end(s, i + 1 as int) == j as int);
    }
    let w = src.substring_char(i, j);
    let tt = if str_eq(w, "true") {
        TokenType::Literal(Value::Bool(true))
    } else if str_eq(w, "false") {
        TokenType::Literal(Value::Bool(false))
    } else if str_eq(w, "let") {
        TokenType::Keyword(Keyword::Let)
    } else if str_eq(w, "pub") {
        TokenType::Keyword(Keyword::Pub)
    } else if str_eq(w, "struct") {
        TokenType::Keyword(Keyword::Struct)
    } else if str_eq(w, "import") {
        TokenType::Keyword(Keyword::Import)
    } else if str_eq(w, "from") {
        TokenType::Keyword(Keyword::From)
    } else if str_eq(w, "if") {
        TokenType::Keyword(Keyword::If)
    } else if str_eq(w, "else") {
        TokenType::Keyword(Keyword::Else)
    } else if str_eq(w, "while") {
        TokenType::Keyword(Keyword::While)
    } else if str_eq(w, "loop") {
        TokenType::Keyword(Keyword::Loop)
    } else if str_eq(w, "break") {
        TokenType::Keyword(Keyword::Break)
    } else if str_eq(w, "continue") {
        TokenType::Keyword(Keyword::Continue)
    } else if str_eq(w, "return") {
        TokenType::Keyword(Keyword::Return)
    } else {
        TokenType::Identifier(w.to_owned())
    };
    (tt, j)
}

/// The lexical scanner. A pass is a single call of `scan`; it keeps no
/// state between calls.
pub struct Scanner;

impl Scanner {
    /// Converts source text into its ordered token sequence, or the first
    /// error met: exactly what `spec_scan` describes.
    pub fn scan(src: &str) -> (r: Result<Vec<Token>, BoError>)
        ensures
            match r {
                Ok(toks) => spec_scan(src@) matches Ok(sts) && tokens_match(sts, toks@),
                Err(e) => spec_scan(src@) matches Err(se) && err_matches(se, e),
            },
    {
        let ghost s = src@;
        let n = src.unicode_len();
        let mut toks: Vec<Token> = Vec::new();
        let ghost mut done: Seq<SpecToken> = Seq::empty();
        let mut i: usize = 0;
        proof {
            assert(done + spec_scan_from(s, 0)->Ok_0 =~= spec_scan_from(s, 0)->Ok_0);
        }
        while i < n
            invariant
                n == s.len(),
                s == src@,
                i <= n,
                tokens_match(done, toks@),
                spec_scan(s) == scan_prepend(done, spec_scan_from(s, i as int)),
            decreases n - i,
        {
            let c = src.get_char(i);
            if ws_char(c) {
                i = i + 1;
            } else {
                proof {
                    lemma_token_at_advances(s, i as int);
                }
                let two: Option<Op> = if i + 1 < n {
                    double_op(c, src.get_char(i + 1))
                } else {
                    None
                };
                match two {
                    Some(op) => {
                        let ghost t = SpecToken { kind: SpecTokenKind::Op(op), idx: i as int };
                        toks.push(Token { token_type: TokenType::Op(op), idx: i });
                        proof {
                            lemma_scan_extend(s, done, t, i as int, i as int + 2);
                            done = done.push(t);
                        }
                        i = i + 2;
                    },
                    None => {
                        match single_op(c) {
                            Some(op) => {
                                let ghost t = SpecToken {
                                    kind: SpecTokenKind::Op(op),
                                    idx: i as int,
                                };
                                toks.push(Token { token_type: TokenType::Op(op), idx: i });
                                proof {
                                    lemma_scan_extend(s, done, t, i as int, i as int + 1);
                                    done = done.push(t);
                                }
                                i = i + 1;
                            },
                            None => {
                                if digit_char(c) {
                                    match scan_number(src, i, n) {
                                        Ok((v, j)) => {
                                            let ghost t = SpecToken {
                                                kind: spec_token_at(s, i as int)->Ok_0.0.kind,
                                                idx: i as int,
                                            };
                                            toks.push(
                                                Token {
                                                    token_type: TokenType::Literal(v),
                                                    idx: i,
                                                },
                                            );
                                            proof {
                                                lemma_scan_extend(
                                                    s,
                                                    done,
                                                    t,
                                                    i as int,
                                                    j as int,
                                                );
                                                done = done.push(t);
                                            }
                                            i = j;
                                        },
                                        Err(e) => {
                                            return Err(e);
                                        },
                                    }
                                } else if c == '"' {
                                    match scan_string(src, i, n) {
                                        Ok((v, j)) => {
                                            let ghost t = SpecToken {
                                                kind: spec_token_at(s, i as int)->Ok_0.0.kind,
                                                idx: i as int,
                                            };
                                            toks.push(
                                                Token {
                                                    token_type: TokenType::Literal(v),
                                                    idx: i,
                                                },
                                            );
                                            proof {
                                                lemma_scan_extend(
                                                    s,
                                                    done,
                                                    t,
                                                    i as int,
                                                    j as int,
                                                );
                                                done = done.push(t);
                                            }
                                            i = j;
                                        },
                                        Err(e) => {
                                            return Err(e);
                                        },
                                    }
                                } else if ident_start_char(c) {
                                    let (tt, j) = scan_word(src, i, n);
                                    let ghost t = SpecToken {
                                        kind: spec_token_at(s, i as int)->Ok_0.0.kind,
                                        idx: i as int,
                                    };
                                    toks.push(Token { token_type: tt, idx: i });
                                    proof {
                                        lemma_scan_extend(s, done, t, i as int, j as int);
                                        done = done.push(t);
                                    }
                                    i = j;
                                } else {
                                    return Err(
                                        BoError {
                                            message: String::from_str("Unexpected character"),
                                            char_idx: i,
                                        },
                                    );
                                }
                            },
                        }
                    },
                }
            }
        }
        proof {
            assert(spec_scan_from(s, n as int) == Ok::<Seq<SpecToken>, SpecErr>(Seq::empty()));
            assert(done + Seq::<SpecToken>::empty() =~= done);
        }
        Ok(toks)
    }
}

/// A source text containing only whitespace scans to the empty token
/// sequence and no error.
pub proof fn lemma_scan_whitespace_only(s: Seq<char>)
    requires
        forall|k: int| 0 <= k < s.len() ==> is_ws_char(#[trigger] s[k]),
    ensures
        spec_scan(s) == Ok::<Seq<SpecToken>, SpecErr>(Seq::<SpecToken>::empty()),
{
    lemma_scan_whitespace_from(s, 0);
}

proof fn lemma_scan_whitespace_from(s: Seq<char>, i: int)
    requires
        0 <= i,
        forall|k: int| 0 <= k < s.len() ==> is_ws_char(#[trigger] s[k]),
    ensures
        spec_scan_from(s, i) == Ok::<Seq<SpecToken>, SpecErr>(Seq::<SpecToken>::empty()),
    decreases s.len() - i,
{
    if i < s.len() {
        lemma_scan_whitespace_from(s, i + 1);
    }
}

/// The scanner prefers the longest operator spelling at every position:
/// wherever a two-character operator spelling occurs, the token found there
/// is that operator, never the one-character operator it begins with, and
/// the scan resumes after both characters; a bare operator symbol is
/// accepted, and the scan resumes after it, only when no two-character
/// spelling matches. When the scan succeeds, that operator token is the
/// first one produced from that position.
pub proof fn lemma_longest_op_preferred(s: Seq<char>, i: int)
    requires
        0 <= i < s.len(),
    ensures
        i + 1 < s.len() && double_op_of(s[i], s[i + 1]) is Some ==> spec_token_at(s, i)
            == Ok::<(SpecToken, int), SpecErr>(
            (
                SpecToken {
                    kind: SpecTokenKind::Op(double_op_of(s[i], s[i + 1])->0),
                    idx: i,
                },
                i + 2,
            ),
        ),
        !(i + 1 < s.len() && double_op_of(s[i], s[i + 1]) is Some) && single_op_of(s[i]) is Some
            ==> spec_token_at(s, i) == Ok::<(SpecToken, int), SpecErr>(
            (SpecToken { kind: SpecTokenKind::Op(single_op_of(s[i])->0), idx: i }, i + 1),
        ),
        i + 1 < s.len() && double_op_of(s[i], s[i + 1]) is Some ==> (spec_scan_from(s, i) matches
            Ok(ts) ==> ts.len() >= 1 && ts[0] == (SpecToken {
            kind: SpecTokenKind::Op(double_op_of(s[i], s[i + 1])->0),
            idx: i,
        })),
        !(i + 1 < s.len() && double_op_of(s[i], s[i + 1]) is Some) && single_op_of(s[i]) is Some
            ==> (spec_scan_from(s, i) matches Ok(ts) ==> ts.len() >= 1 && ts[0] == (SpecToken {
            kind: SpecTokenKind::Op(single_op_of(s[i])->0),
            idx: i,
        })),
{
    if (i + 1 < s.len() && double_op_of(s[i], s[i + 1]) is Some) || single_op_of(s[i]) is Some {
        assert(!is_ws_char(s[i]));
    }
}

/// The Boolean spellings always tokenize as Boolean literals and the
/// keyword spellings as keywords, never as identifiers.
pub proof fn lemma_keywords_never_identifiers()
    ensures
        forall|k: Keyword| #[trigger] classify_word(kw_text(k)) == SpecTokenKind::Kw(k),
        classify_word("true"@) == SpecTokenKind::Lit(SpecLit::Bool(true)),
        classify_word("false"@) == SpecTokenKind::Lit(SpecLit::Bool(false)),
{
    reveal_strlit("true");
    reveal_strlit("false");
    reveal_strlit("let");
    reveal_strlit("pub");
    reveal_strlit("struct");
    reveal_strlit("import");
    reveal_strlit("from");
    reveal_strlit("if");
    reveal_strlit("else");
    reveal_strlit("while");
    reveal_strlit("loop");
    reveal_strlit("break");
    reveal_strlit("continue");
    reveal_strlit("return");
    assert("true"@.len() == 4);
    assert("false"@.len() == 5);
    assert("let"@.len() == 3);
    assert("pub"@.len() == 3);
    assert("struct"@.len() == 6);
    assert("import"@.len() == 6);
    assert("from"@.len() == 4);
    assert("if"@.len() == 2);
    assert("else"@.len() == 4);
    assert("while"@.len() == 5);
    assert("loop"@.len() == 4);
    assert("break"@.len() == 5);
    assert("continue"@.len() == 8);
    assert("return"@.len() == 6);
    assert("pub"@[0] != "let"@[0]);
    assert("pub"@ != "let"@);
    assert("else"@[0] != "true"@[0]);
    assert("else"@ != "true"@);
    assert("else"@[0] != "from"@[0]);
    assert("else"@ != "from"@);
    assert("from"@[0] != "true"@[0]);
    assert("from"@ != "true"@);
    assert("loop"@[0] != "true"@[0]);
    assert("loop"@ != "true"@);
    assert("loop"@[0] != "from"@[0]);
    assert("loop"@ != "from"@);
    assert("loop"@[0] != "else"@[0]);
    assert("loop"@ != "else"@);
    assert("while"@[0] != "false"@[0]);
    assert("while"@ != "false"@);
    assert("break"@[0] != "false"@[0]);
    assert("break"@ != "false"@);
    assert("break"@[0] != "while"@[0]);
    assert("break"@ != "while"@);
    assert("import"@[0] != "struct"@[0]);
    assert("import"@ != "struct"@);
    assert("return"@[0] != "struct"@[0]);
    assert("return"@ != "struct"@);
    assert("return"@[0] != "import"@[0]);
    assert("return"@ != "import"@);
    assert(classify_word("true"@) == SpecTokenKind::Lit(SpecLit::Bool(true)));
    assert(classify_word("false"@) == SpecTokenKind::Lit(SpecLit::Bool(false)));
    assert forall|k: Keyword| #[trigger] classify_word(kw_text(k)) == SpecTokenKind::Kw(k) by {
        match k {
            Keyword::Let => assert(classify_word(kw_text(k)) == SpecTokenKind::Kw(k)),
            Keyword::Pub => assert(classify_word(kw_text(k)) == SpecTokenKind::Kw(k)),
            Keyword::Struct => assert(classify_word(kw_text(k)) == SpecTokenKind::Kw(k)),
            Keyword::Import => assert(classify_word(kw_text(k)) == SpecTokenKind::Kw(k)),
            Keyword::From => assert(classify_word(kw_text(k)) == SpecTokenKind::Kw(k)),
            Keyword::If => assert(classify_word(kw_text(k)) == SpecTokenKind::Kw(k)),
            Keyword::Else => assert(classify_word(kw_text(k)) == SpecTokenKind::Kw(k)),
            Keyword::While => assert(classify_word(kw_text(k)) == SpecTokenKind::Kw(k)),
            Keyword::Loop => assert(classify_word(kw_text(k)) == SpecTokenKind::Kw(k)),
            Keyword::Break => assert(classify_word(kw_text(k)) == SpecTokenKind::Kw(k)),
            Keyword::Continue => assert(classify_word(kw_text(k)) == SpecTokenKind::Kw(k)),
            Keyword::Return => assert(classify_word(kw_text(k)) == SpecTokenKind::Kw(k)),
        }
    }
}

/// The token `t` begins at its recorded source position: slicing the source
/// text at `t.idx` yields the token's own text. For a string literal the
/// slice starts at the opening quote; for a numeric literal it starts at
/// the first digit, and the digit run found there reads back to the
/// recorded value.
pub open spec fn token_text_at(s: Seq<char>, t: SpecToken) -> bool {
    let i = t.idx;
    &&& 0 <= i < s.len()
    &&& match t.kind {
        SpecTokenKind::Op(o) => i + op_text(o).len() <= s.len() && s.subrange(
            i,
            i + op_text(o).len() as int,
        ) == op_text(o),
        SpecTokenKind::Kw(k) => i + kw_text(k).len() <= s.len() && s.subrange(
            i,
            i + kw_text(k).len() as int,
        ) == kw_text(k),
        SpecTokenKind::Ident(w) => w.len() > 0 && i + w.len() <= s.len() && s.subrange(
            i,
            i + w.len() as int,
        ) == w,
        SpecTokenKind::Lit(SpecLit::Bool(b)) => {
            let w = if b {
                "true"@
            } else {
                "false"@
            };
            i + w.len() <= s.len() && s.subrange(i, i + w.len() as int) == w
        },
        SpecTokenKind::Lit(SpecLit::Int(v)) => is_digit_char(s[i]) && digits_val(
            s.subrange(i, digit_run_end(s, i)),
        ) == v as int,
        SpecTokenKind::Lit(SpecLit::Float(w, f)) => {
            &&& i + w.len() + 1 + f.len() <= s.len()
            &&& s.subrange(i, i + w.len() as int) == w
            &&& s[i + w.len() as int] == '.'
            &&& s.subrange(i + w.len() as int + 1, i + w.len() as int + 1 + f.len() as int) == f
        },
        SpecTokenKind::Lit(SpecLit::Str(cs)) => {
            &&& i + cs.len() + 2 <= s.len()
            &&& s[i] == '"'
            &&& s.subrange(i + 1, i + 1 + cs.len() as int) == cs
            &&& s[i + 1 + cs.len() as int] == '"'
        },
    }
}

/// The token found at a position begins there, in the sense of
/// `token_text_at`.
proof fn lemma_token_text(s: Seq<char>, i: int)
    requires
        0 <= i < s.len(),
    ensures
        spec_token_at(s, i) matches Ok((t, j)) ==> token_text_at(s, t),
{
    let c = s[i];
    if i + 1 < s.len() && double_op_of(c, s[i + 1]) is Some {
        let o = double_op_of(c, s[i + 1])->0;
        assert(op_text(o) =~= seq![s[i], s[i + 1]]);
        assert(s.subrange(i, i + 2) =~= seq![s[i], s[i + 1]]);
    } else if single_op_of(c) is Some {
        let o = single_op_of(c)->0;
        assert(op_text(o) =~= seq![s[i]]);
        assert(s.subrange(i, i + 1) =~= seq![s[i]]);
    } else if is_digit_char(c) {
        lemma_digit_run_end(s, i);
        let j = digit_run_end(s, i);
        if j + 1 < s.len() && s[j] == '.' && is_digit_char(s[j + 1]) {
            lemma_digit_run_end(s, j + 1);
            let k = digit_run_end(s, j + 1);
            let w = s.subrange(i, j);
            let f = s.subrange(j + 1, k);
            assert(s.subrange(i, i + w.len() as int) == w);
            assert(s[i + w.len() as int] == '.');
            assert(s.subrange(i + w.len() as int + 1, i + w.len() as int + 1 + f.len() as int)
                == f);
        } else {
            if digits_val(s.subrange(i, j)) <= i64::MAX as int {
                assert(forall|m: int|
                    0 <= m < s.subrange(i, j).len() ==> is_digit_char(
                        #[trigger] s.subrange(i, j)[m],
                    ));
                lemma_digits_val_nonneg(s.subrange(i, j));
            }
        }
    } else if c == '"' {
        lemma_close_quote(s, i + 1);
        let j = close_quote(s, i + 1);
        if j < s.len() {
            let cs = s.subrange(i + 1, j);
            assert(s.subrange(i + 1, i + 1 + cs.len() as int) == cs);
            assert(s[i + 1 + cs.len() as int] == '"');
        }
    } else if is_ident_start_char(c) {
        lemma_word_end(s, i + 1);
        let j = word_end(s, i + 1);
        let w = s.subrange(i, j);
        assert(w.len() > 0);
        assert(s.subrange(i, i + w.len() as int) == w);
        match classify_word(w) {
            SpecTokenKind::Kw(k) => {
                assert(w == kw_text(k));
            },
            _ => {},
        }
    }
}

/// Every token of a successful scan begins at its recorded source position:
/// slicing the source text at the token's position yields the token's text.
pub proof fn lemma_scan_positions(s: Seq<char>)
    ensures
        spec_scan(s) matches Ok(ts) ==> forall|k: int|
            0 <= k < ts.len() ==> token_text_at(s, #[trigger] ts[k]),
{
    lemma_scan_positions_from(s, 0);
}

proof fn lemma_scan_positions_from(s: Seq<char>, i: int)
    requires
        0 <= i,
    ensures
        spec_scan_from(s, i) matches Ok(ts) ==> forall|k: int|
            0 <= k < ts.len() ==> token_text_at(s, #[trigger] ts[k]),
    decreases s.len() - i,
{
    if i >= s.len() {
    } else if is_ws_char(s[i]) {
        lemma_scan_positions_from(s, i + 1);
    } else {
        match spec_token_at(s, i) {
            Ok((t, j)) => {
                lemma_token_at_advances(s, i);
                lemma_token_text(s, i);
                lemma_scan_positions_from(s, j);
                match spec_scan_from(s, j) {
                    Ok(rest) => {
                        let ts = seq![t] + rest;
                        assert forall|k: int| 0 <= k < ts.len() implies token_text_at(
                            s,
                            #[trigger] ts[k],
                        ) by {
                            if k == 0 {
                                assert(ts[0] == t);
                            } else {
                                assert(ts[k] == rest[k - 1]);
                            }
                        }
                    },
                    Err(_) => {},
                }
            },
            Err(_) => {},
        }
    }
}

/// Fail-fast scanning: the first failing position decides the whole scan,
/// whatever follows it in the text.
pub proof fn lemma_scan_first_error(s: Seq<char>, i: int)
    requires
        0 <= i < s.len(),
        !is_ws_char(s[i]),
        spec_token_at(s, i) is Err,
    ensures
        spec_scan_from(s, i) == Result::<Seq<SpecToken>, SpecErr>::Err(
            spec_token_at(s, i)->Err_0,
        ),
{
}

/// One scanning step: when the token at `i` is `t` and the scan continues at
/// `j`, the tokens of the whole text are those already produced, then `t`,
/// then whatever the rest yields.
proof fn lemma_scan_extend(s: Seq<char>, done: Seq<SpecToken>, t: SpecToken, i: int, j: int)
    requires
        0 <= i < s.len(),
        !is_ws_char(s[i]),
        spec_token_at(s, i) == Ok::<(SpecToken, int), SpecErr>((t, j)),
        spec_scan(s) == scan_prepend(done, spec_scan_from(s, i)),
    ensures
        spec_scan(s) == scan_prepend(done.push(t), spec_scan_from(s, j)),
{
    match spec_scan_from(s, j) {
        Ok(ts) => {
            assert(done + (seq![t] + ts) =~= done.push(t) + ts);
        },
        Err(_) => {},
    }
}

} // verus!


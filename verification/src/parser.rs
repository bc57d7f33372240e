//! The recursive-descent parser: consumes the token sequence produced by the
//! scanner and builds a module, an ordered sequence of statements, or fails
//! with the first error it meets.
//!
//! The behaviour of the pass is pinned down by `spec_parse`, a recursive
//! ghost description of the statement found at each token position;
//! `Parser::parse` is proved to return exactly what `spec_parse` describes.
//! Statement parsing is fail-fast: the first failure decides the whole pass,
//! so a recorded error is never displaced by a later one.

use vstd::prelude::*;

use crate::bo_error::BoError;
use crate::common::err_matches;
use crate::common::value_like;
use crate::common::Keyword;
use crate::common::Op;
use crate::common::SpecErr;
use crate::common::Token;
use crate::common::TokenType;
use crate::common::Value;
use vstd::string::StringExecFns;

verus! {

/// The parse result for a whole source unit: its ordered top-level
/// statements.
pub struct Module {
    pub statements: Vec<Statement>,
}

/// An expression. The grammar subset parsed here produces only `Literal`;
/// the remaining forms keep the data model open for later growth and are
/// never produced by this parser.
#[derive(Debug, PartialEq)]
pub enum Expression {
    Literal(Value),
    Unary(Op, Box<Expression>),
    Binary(Op, Box<Expression>, Box<Expression>),
    Assignable(Box<Expression>),
    Array(Vec<Expression>),
}

/// A statement. `Loop`, `While` and `If` bodies are always `Block`
/// statements; a successful parse never produces anything else there.
/// `Assignment` keeps the data model open for later growth and is never
/// produced by this parser.
#[derive(Debug, PartialEq)]
pub enum Statement {
    Expr(Expression),
    Assignment(Expression, Expression),
    Let(String, Expression),
    Return(Option<Expression>),
    Loop(Box<Statement>),
    While(Expression, Box<Statement>),
    If(Expression, Box<Statement>, Option<Box<Statement>>),
    Block(Vec<Statement>),
}

/// Ghost model of a statement the parser can produce. Blocks appear as the
/// sequence of statements they hold; expressions, which the parsed subset
/// limits to literals, appear as the literal value carried by their token.
pub enum SpecStmt {
    Expr(Value),
    Let(Seq<char>, Value),
    Return(Option<Value>),
    Loop(Seq<SpecStmt>),
    While(Value, Seq<SpecStmt>),
    If(Value, Seq<SpecStmt>, Option<Seq<SpecStmt>>),
}

/// The expression `e` is the literal carrying exactly the value `v`.
pub open spec fn expr_matches(v: Value, e: Expression) -> bool {
    match e {
        Expression::Literal(w) => value_like(v, w),
        _ => false,
    }
}

/// The statement `s` is exactly what the model statement `m` describes.
pub open spec fn stmt_matches(m: SpecStmt, s: Statement) -> bool
    decreases m, 2int,
{
    match (m, s) {
        (SpecStmt::Expr(v), Statement::Expr(e)) => expr_matches(v, e),
        (SpecStmt::Let(n, v), Statement::Let(name, e)) => n == name@ && expr_matches(v, e),
        (SpecStmt::Return(mv), Statement::Return(oe)) => match (mv, oe) {
            (Some(v), Some(e)) => expr_matches(v, e),
            (None, None) => true,
            _ => false,
        },
        (SpecStmt::Loop(ms), Statement::Loop(b)) => block_matches(ms, *b),
        (SpecStmt::While(v, ms), Statement::While(c, b)) => expr_matches(v, c) && block_matches(
            ms,
            *b,
        ),
        (SpecStmt::If(v, mt, me), Statement::If(c, tb, eb)) => expr_matches(v, c)
            && block_matches(mt, *tb) && match (me, eb) {
            (Some(ms2), Some(b2)) => block_matches(ms2, *b2),
            (None, None) => true,
            _ => false,
        },
        _ => false,
    }
}

/// The statement `s` is a block holding exactly what the model sequence
/// `ms` describes.
pub open spec fn block_matches(ms: Seq<SpecStmt>, s: Statement) -> bool
    decreases ms, 1int,
{
    match s {
        Statement::Block(v) => stmts_match(ms, v@),
        _ => false,
    }
}

/// The statements `ss` are exactly what the model sequence `ms` describes,
/// statement for statement.
pub open spec fn stmts_match(ms: Seq<SpecStmt>, ss: Seq<Statement>) -> bool
    decreases ms, 0int,
{
    if ms.len() != ss.len() {
        false
    } else if ms.len() == 0 {
        true
    } else {
        stmt_matches(ms[0], ss[0]) && stmts_match(ms.drop_first(), ss.drop_first())
    }
}

/// The position reported for a condition met at the end of the token
/// sequence: the last token's position, or zero for an empty sequence.
pub open spec fn eof_idx(toks: Seq<Token>) -> int {
    if toks.len() > 0 {
        toks.last().idx as int
    } else {
        0
    }
}

/// The position of the token at `i`, falling back to `eof_idx` past the end.
pub open spec fn tok_idx(toks: Seq<Token>, i: int) -> int {
    if 0 <= i < toks.len() {
        toks[i].idx as int
    } else {
        eof_idx(toks)
    }
}

/// How many tokens remain at position `i`; never negative.
pub open spec fn tokens_left(toks: Seq<Token>, i: int) -> int {
    if i <= toks.len() {
        toks.len() - i
    } else {
        0
    }
}

/// The expression at position `i`: in the parsed subset this is exactly one
/// literal token. Anything else, a missing token included, is an error at
/// that position.
pub open spec fn spec_primary(toks: Seq<Token>, i: int) -> Result<Value, SpecErr> {
    if 0 <= i < toks.len() && toks[i].token_type is Literal {
        Ok(toks[i].token_type->Literal_0)
    } else {
        Err(SpecErr { msg: "Expected literal"@, idx: tok_idx(toks, i) })
    }
}

/// The `let` statement whose keyword stands at `i`: an identifier, an
/// equals sign, and an initializer expression. On success the second
/// component counts the tokens consumed beyond the keyword.
pub open spec fn spec_let_stmt(toks: Seq<Token>, i: int) -> Result<(SpecStmt, nat), SpecErr> {
    let j = i + 1;
    if 0 <= j < toks.len() && toks[j].token_type is Identifier {
        let name = toks[j].token_type->Identifier_0;
        let k = j + 1;
        if 0 <= k < toks.len() && toks[k].token_type == TokenType::Op(Op::Equal) {
            match spec_primary(toks, k + 1) {
                Ok(v) => Ok((SpecStmt::Let(name@, v), 3 as nat)),
                Err(e) => Err(e),
            }
        } else {
            Err(SpecErr { msg: "Expected equals sign"@, idx: tok_idx(toks, k) })
        }
    } else {
        Err(SpecErr { msg: "Expected identifier"@, idx: tok_idx(toks, j) })
    }
}

/// The `return` statement whose keyword stands at `i`: bare when a
/// semicolon follows at once (the semicolon itself is consumed by
/// `spec_statement`), else with one expression.
pub open spec fn spec_return_stmt(toks: Seq<Token>, i: int) -> Result<(SpecStmt, nat), SpecErr> {
    let j = i + 1;
    if 0 <= j < toks.len() && toks[j].token_type == TokenType::Op(Op::Semicolon) {
        Ok((SpecStmt::Return(None), 0 as nat))
    } else {
        match spec_primary(toks, j) {
            Ok(v) => Ok((SpecStmt::Return(Some(v)), 1 as nat)),
            Err(e) => Err(e),
        }
    }
}

/// The statement beginning at `i`, together with the count of tokens it
/// consumes beyond the first — every statement, its trailing semicolon
/// included, consumes at least one. A keyword selects its statement form;
/// `pub`, `struct`, `import`, `from`, `else`, `break` and `continue` have
/// no statement form and are reported as unexpected; any other token must
/// begin an expression. After the form, the trailing semicolon is required,
/// its absence reported at the previously consumed token.
pub open spec fn spec_statement(toks: Seq<Token>, i: int) -> Result<(SpecStmt, nat), SpecErr>
    decreases tokens_left(toks, i), 3int,
{
    if i < 0 || i >= toks.len() {
        Err(SpecErr { msg: "Expected literal"@, idx: eof_idx(toks) })
    } else {
        let step = match toks[i].token_type {
            TokenType::Keyword(kw) => match kw {
                Keyword::Let => spec_let_stmt(toks, i),
                Keyword::Return => spec_return_stmt(toks, i),
                Keyword::Loop => spec_loop_stmt(toks, i),
                Keyword::While => spec_while_stmt(toks, i),
                Keyword::If => spec_if_stmt(toks, i),
                _ => Err(SpecErr { msg: "Unexpected keyword"@, idx: toks[i].idx as int }),
            },
            _ => match spec_primary(toks, i) {
                Ok(v) => Ok((SpecStmt::Expr(v), 0 as nat)),
                Err(e) => Err(e),
            },
        };
        match step {
            Ok((m, more)) => {
                let next = i + 1 + more;
                if next < toks.len() && toks[next].token_type == TokenType::Op(Op::Semicolon) {
                    Ok((m, (more + 1) as nat))
                } else {
                    Err(SpecErr { msg: "Expected semicolon"@, idx: tok_idx(toks, next - 1) })
                }
            },
            Err(e) => Err(e),
        }
    }
}

/// The `loop` statement whose keyword stands at `i`: its body block.
pub open spec fn spec_loop_stmt(toks: Seq<Token>, i: int) -> Result<(SpecStmt, nat), SpecErr>
    decreases tokens_left(toks, i), 2int,
{
    match spec_block(toks, i + 1) {
        Ok((ms, bm)) => Ok((SpecStmt::Loop(ms), (1 + bm) as nat)),
        Err(e) => Err(e),
    }
}

/// The `while` statement whose keyword stands at `i`: a condition
/// expression, then its body block.
pub open spec fn spec_while_stmt(toks: Seq<Token>, i: int) -> Result<(SpecStmt, nat), SpecErr>
    decreases tokens_left(toks, i), 2int,
{
    match spec_primary(toks, i + 1) {
        Ok(v) => match spec_block(toks, i + 2) {
            Ok((ms, bm)) => Ok((SpecStmt::While(v, ms), (2 + bm) as nat)),
            Err(e) => Err(e),
        },
        Err(e) => Err(e),
    }
}

/// The `if` statement whose keyword stands at `i`: a condition expression,
/// a then-block, and, when the `else` keyword follows, an else-block.
pub open spec fn spec_if_stmt(toks: Seq<Token>, i: int) -> Result<(SpecStmt, nat), SpecErr>
    decreases tokens_left(toks, i), 2int,
{
    match spec_primary(toks, i + 1) {
        Ok(v) => match spec_block(toks, i + 2) {
            Ok((mt, tb)) => {
                let next = i + 3 + tb;
                if next < toks.len() && toks[next].token_type == TokenType::Keyword(
                    Keyword::Else,
                ) {
                    match spec_block(toks, next + 1) {
                        Ok((me, eb)) => Ok(
                            (SpecStmt::If(v, mt, Some(me)), (4 + tb + eb) as nat),
                        ),
                        Err(e) => Err(e),
                    }
                } else {
                    Ok((SpecStmt::If(v, mt, None), (2 + tb) as nat))
                }
            },
            Err(e) => Err(e),
        },
        Err(e) => Err(e),
    }
}

/// The block beginning at `i`: an opening brace is required — a loop,
/// while or if body must be a block — then statements up to the closing
/// brace. On success the second component counts the tokens consumed
/// beyond the opening brace.
pub open spec fn spec_block(toks: Seq<Token>, i: int) -> Result<(Seq<SpecStmt>, nat), SpecErr>
    decreases tokens_left(toks, i), 0int,
{
    if 0 <= i < toks.len() && toks[i].token_type == TokenType::Op(Op::LeftBrace) {
        spec_block_rest(toks, i + 1)
    } else {
        Err(SpecErr { msg: "Expected block"@, idx: tok_idx(toks, i) })
    }
}

/// The statements of a block body from `i` up to and including its closing
/// brace, with the count of tokens consumed. A block that reaches the end
/// of input before its closing brace is treated as complete: the missing
/// brace is tolerated, not reported.
pub open spec fn spec_block_rest(toks: Seq<Token>, i: int) -> Result<
    (Seq<SpecStmt>, nat),
    SpecErr,
>
    decreases tokens_left(toks, i), 4int,
{
    if i < 0 || i >= toks.len() {
        Ok((Seq::empty(), 0 as nat))
    } else if toks[i].token_type == TokenType::Op(Op::RightBrace) {
        Ok((Seq::empty(), 1 as nat))
    } else {
        match spec_statement(toks, i) {
            Ok((m, more)) => match spec_block_rest(toks, i + 1 + more) {
                Ok((ms, c)) => Ok((seq![m] + ms, (1 + more + c) as nat)),
                Err(e) => Err(e),
            },
            Err(e) => Err(e),
        }
    }
}

/// The top-level statements from `i` to the end of the token sequence, or
/// the first error met.
pub open spec fn spec_stmts(toks: Seq<Token>, i: int) -> Result<Seq<SpecStmt>, SpecErr>
    decreases tokens_left(toks, i), 5int,
{
    if i < 0 || i >= toks.len() {
        Ok(Seq::empty())
    } else {
        match spec_statement(toks, i) {
            Ok((m, more)) => match spec_stmts(toks, i + 1 + more) {
                Ok(ms) => Ok(seq![m] + ms),
                Err(e) => Err(e),
            },
            Err(e) => Err(e),
        }
    }
}

/// The module described by the whole token sequence, or the first error
/// met.
pub open spec fn spec_parse(toks: Seq<Token>) -> Result<Seq<SpecStmt>, SpecErr> {
    spec_stmts(toks, 0)
}

/// Fail-fast parsing: the first failing statement decides the whole parse,
/// whatever tokens follow it. Once this error exists, no later failure
/// changes the reported message or position.
pub proof fn lemma_parse_first_error(toks: Seq<Token>, i: int)
    requires
        0 <= i < toks.len(),
        spec_statement(toks, i) is Err,
    ensures
        spec_stmts(toks, i) == Result::<Seq<SpecStmt>, SpecErr>::Err(
            spec_statement(toks, i)->Err_0,
        ),
{
}

/// The recursive-descent parser: an immutable token sequence read through
/// a cursor threaded through the parsing functions. A pass is a single
/// call of `parse`; it keeps no state between calls.
pub struct Parser {
    tokens: Vec<Token>,
}

impl Parser {
    /// The diagnostic for a condition detected at token position `i`,
    /// placed at that token, or at the last token when the input ended.
    fn err_at(&self, i: usize, msg: &str) -> (r: BoError)
        ensures
            r.message@ == msg@,
            r.char_idx as int == tok_idx(self.tokens@, i as int),
    {
        let idx: usize = if i < self.tokens.len() {
            self.tokens[i].idx
        } else if self.tokens.len() > 0 {
            self.tokens[self.tokens.len() - 1].idx
        } else {
            0
        };
        BoError { message: String::from_str(msg), char_idx: idx }
    }

    /// Parses the expression at `i`: exactly one literal token.
    fn primary(&self, i: usize) -> (r: Result<(Expression, usize), BoError>)
        ensures
            match r {
                Ok((e, j)) => spec_primary(self.tokens@, i as int) matches Ok(v) && expr_matches(
                    v,
                    e,
                ) && j == i + 1 && j <= self.tokens@.len(),
                Err(er) => spec_primary(self.tokens@, i as int) matches Err(se) && err_matches(
                    se,
                    er,
                ),
            },
    {
        if i < self.tokens.len() {
            match &self.tokens[i].token_type {
                TokenType::Literal(v) => Ok((Expression::Literal(v.clone()), i + 1)),
                _ => Err(self.err_at(i, "Expected literal")),
            }
        } else {
            Err(self.err_at(i, "Expected literal"))
        }
    }

    /// Parses the `let` statement whose keyword stands at `i`.
    fn let_stmt(&self, i: usize) -> (r: Result<(Statement, usize), BoError>)
        requires
            i < self.tokens@.len(),
        ensures
            match r {
                Ok((st, j)) => spec_let_stmt(self.tokens@, i as int) matches Ok((m, more))
                    && stmt_matches(m, st) && j as int == i + 1 + more && j
                    <= self.tokens@.len(),
                Err(e) => spec_let_stmt(self.tokens@, i as int) matches Err(se) && err_matches(
                    se,
                    e,
                ),
            },
    {
        let n = self.tokens.len();
        let j = i + 1;
        if j < n {
            match &self.tokens[j].token_type {
                TokenType::Identifier(s) => {
                    let name = s.clone();
                    let k = j + 1;
                    if k < n && self.tokens[k].is_this_op(Op::Equal) {
                        match self.primary(k + 1) {
                            Ok((e, jj)) => Ok((Statement::Let(name, e), jj)),
                            Err(er) => Err(er),
                        }
                    } else {
                        Err(self.err_at(k, "Expected equals sign"))
                    }
                },
                _ => Err(self.err_at(j, "Expected identifier")),
            }
        } else {
            Err(self.err_at(j, "Expected identifier"))
        }
    }

    /// Parses the `return` statement whose keyword stands at `i`.
    fn return_stmt(&self, i: usize) -> (r: Result<(Statement, usize), BoError>)
        requires
            i < self.tokens@.len(),
        ensures
            match r {
                Ok((st, j)) => spec_return_stmt(self.tokens@, i as int) matches Ok((m, more))
                    && stmt_matches(m, st) && j as int == i + 1 + more && j
                    <= self.tokens@.len(),
                Err(e) => spec_return_stmt(self.tokens@, i as int) matches Err(se)
                    && err_matches(se, e),
            },
    {
        let n = self.tokens.len();
        let j = i + 1;
        if j < n && self.tokens[j].is_this_op(Op::Semicolon) {
            Ok((Statement::Return(None), j))
        } else {
            match self.primary(j) {
                Ok((e, jj)) => Ok((Statement::Return(Some(e)), jj)),
                Err(er) => Err(er),
            }
        }
    }

    /// Parses the `loop` statement whose keyword stands at `i`.
    fn loop_stmt(&self, i: usize) -> (r: Result<(Statement, usize), BoError>)
        requires
            i < self.tokens@.len(),
        ensures
            match r {
                Ok((st, j)) => spec_loop_stmt(self.tokens@, i as int) matches Ok((m, more))
                    && stmt_matches(m, st) && j as int == i + 1 + more && j
                    <= self.tokens@.len(),
                Err(e) => spec_loop_stmt(self.tokens@, i as int) matches Err(se) && err_matches(
                    se,
                    e,
                ),
            },
        decreases tokens_left(self.tokens@, i as int), 2int,
    {
        proof {
            // the token sequence fits in memory, so the next index fits a usize
            assert(self.tokens.len() == self.tokens@.len());
        }
        match self.block(i + 1) {
            Ok((v, j)) => Ok((Statement::Loop(Box::new(Statement::Block(v))), j)),
            Err(e) => Err(e),
        }
    }

    /// Parses the `while` statement whose keyword stands at `i`.
    fn while_stmt(&self, i: usize) -> (r: Result<(Statement, usize), BoError>)
        requires
            i < self.tokens@.len(),
        ensures
            match r {
                Ok((st, j)) => spec_while_stmt(self.tokens@, i as int) matches Ok((m, more))
                    && stmt_matches(m, st) && j as int == i + 1 + more && j
                    <= self.tokens@.len(),
                Err(e) => spec_while_stmt(self.tokens@, i as int) matches Err(se)
                    && err_matches(se, e),
            },
        decreases tokens_left(self.tokens@, i as int), 2int,
    {
        proof {
            // the token sequence fits in memory, so the next index fits a usize
            assert(self.tokens.len() == self.tokens@.len());
        }
        match self.primary(i + 1) {
            Ok((c, _)) => match self.block(i + 2) {
                Ok((v, j)) => Ok((Statement::While(c, Box::new(Statement::Block(v))), j)),
                Err(e) => Err(e),
            },
            Err(e) => Err(e),
        }
    }

    /// Parses the `if` statement whose keyword stands at `i`.
    fn if_stmt(&self, i: usize) -> (r: Result<(Statement, usize), BoError>)
        requires
            i < self.tokens@.len(),
        ensures
            match r {
                Ok((st, j)) => spec_if_stmt(self.tokens@, i as int) matches Ok((m, more))
                    && stmt_matches(m, st) && j as int == i + 1 + more && j
                    <= self.tokens@.len(),
                Err(e) => spec_if_stmt(self.tokens@, i as int) matches Err(se) && err_matches(
                    se,
                    e,
                ),
            },
        decreases tokens_left(self.tokens@, i as int), 2int,
    {
        let n = self.tokens.len();
        match self.primary(i + 1) {
            Ok((c, _)) => match self.block(i + 2) {
                Ok((tv, next)) => {
                    let has_else = next < n && (match self.tokens[next].is_keyword() {
                        Some(Keyword::Else) => true,
                        _ => false,
                    });
                    if has_else {
                        match self.block(next + 1) {
                            Ok((ev, j)) => Ok(
                                (
                                    Statement::If(
                                        c,
                                        Box::new(Statement::Block(tv)),
                                        Some(Box::new(Statement::Block(ev))),
                                    ),
                                    j,
                                ),
                            ),
                            Err(e) => Err(e),
                        }
                    } else {
                        Ok((Statement::If(c, Box::new(Statement::Block(tv)), None), next))
                    }
                },
                Err(e) => Err(e),
            },
            Err(e) => Err(e),
        }
    }

    /// Parses the block beginning at `i`: an opening brace, statements, and
    /// the closing brace.
    fn block(&self, i: usize) -> (r: Result<(Vec<Statement>, usize), BoError>)
        ensures
            match r {
                Ok((v, j)) => spec_block(self.tokens@, i as int) matches Ok((ms, more))
                    && stmts_match(ms, v@) && j as int == i + 1 + more && j
                    <= self.tokens@.len(),
                Err(e) => spec_block(self.tokens@, i as int) matches Err(se) && err_matches(
                    se,
                    e,
                ),
            },
        decreases tokens_left(self.tokens@, i as int), 0int,
    {
        if i < self.tokens.len() && self.tokens[i].is_this_op(Op::LeftBrace) {
            self.block_rest(i + 1)
        } else {
            Err(self.err_at(i, "Expected block"))
        }
    }

    /// Parses the statements of a block body up to and including its
    /// closing brace; a body cut short by the end of input is complete.
    fn block_rest(&self, i: usize) -> (r: Result<(Vec<Statement>, usize), BoError>)
        requires
            i <= self.tokens@.len(),
        ensures
            match r {
                Ok((v, j)) => spec_block_rest(self.tokens@, i as int) matches Ok((ms, c))
                    && stmts_match(ms, v@) && j as int == i + c && j <= self.tokens@.len(),
                Err(e) => spec_block_rest(self.tokens@, i as int) matches Err(se)
                    && err_matches(se, e),
            },
        decreases tokens_left(self.tokens@, i as int), 4int,
    {
        if i >= self.tokens.len() {
            Ok((Vec::new(), i))
        } else if self.tokens[i].is_this_op(Op::RightBrace) {
            Ok((Vec::new(), i + 1))
        } else {
            match self.statement(i) {
                Ok((st, j)) => match self.block_rest(j) {
                    Ok((mut v, end)) => {
                        let ghost oldv = v@;
                        v.insert(0, st);
                        proof {
                            let ms = spec_statement(self.tokens@, i as int)->Ok_0.0;
                            let rest = spec_block_rest(self.tokens@, j as int)->Ok_0.0;
                            assert(v@.drop_first() =~= oldv);
                            assert(v@[0] == st);
                            assert((seq![ms] + rest).drop_first() =~= rest);
                            assert((seq![ms] + rest)[0] == ms);
                        }
                        Ok((v, end))
                    },
                    Err(e) => Err(e),
                },
                Err(e) => Err(e),
            }
        }
    }

    /// Parses the statement beginning at `i`, its trailing semicolon
    /// included.
    fn statement(&self, i: usize) -> (r: Result<(Statement, usize), BoError>)
        requires
            i < self.tokens@.len(),
        ensures
            match r {
                Ok((st, j)) => spec_statement(self.tokens@, i as int) matches Ok((m, more))
                    && stmt_matches(m, st) && j as int == i + 1 + more && i < j && j
                    <= self.tokens@.len(),
                Err(e) => spec_statement(self.tokens@, i as int) matches Err(se)
                    && err_matches(se, e),
            },
        decreases tokens_left(self.tokens@, i as int), 3int,
    {
        let kw = self.tokens[i].is_keyword();
        let step: Result<(Statement, usize), BoError> = match kw {
            Some(Keyword::Let) => self.let_stmt(i),
            Some(Keyword::Return) => self.return_stmt(i),
            Some(Keyword::Loop) => self.loop_stmt(i),
            Some(Keyword::While) => self.while_stmt(i),
            Some(Keyword::If) => self.if_stmt(i),
            Some(_) => Err(self.err_at(i, "Unexpected keyword")),
            None => match self.primary(i) {
                Ok((e, j)) => Ok((Statement::Expr(e), j)),
                Err(er) => Err(er),
            },
        };
        match step {
            Ok((st, j)) => {
                if j < self.tokens.len() && self.tokens[j].is_this_op(Op::Semicolon) {
                    Ok((st, j + 1))
                } else {
                    Err(self.err_at(j - 1, "Expected semicolon"))
                }
            },
            Err(e) => Err(e),
        }
    }

    /// Parses the top-level statements from `i` to the end of the token
    /// sequence.
    fn stmts(&self, i: usize) -> (r: Result<Vec<Statement>, BoError>)
        ensures
            match r {
                Ok(v) => spec_stmts(self.tokens@, i as int) matches Ok(ms) && stmts_match(
                    ms,
                    v@,
                ),
                Err(e) => spec_stmts(self.tokens@, i as int) matches Err(se) && err_matches(
                    se,
                    e,
                ),
            },
        decreases tokens_left(self.tokens@, i as int), 5int,
    {
        if i >= self.tokens.len() {
            Ok(Vec::new())
        } else {
            match self.statement(i) {
                Ok((st, j)) => match self.stmts(j) {
                    Ok(mut v) => {
                        let ghost oldv = v@;
                        v.insert(0, st);
                        proof {
                            let ms = spec_statement(self.tokens@, i as int)->Ok_0.0;
                            let rest = spec_stmts(self.tokens@, j as int)->Ok_0;
                            assert(v@.drop_first() =~= oldv);
                            assert(v@[0] == st);
                            assert((seq![ms] + rest).drop_first() =~= rest);
                            assert((seq![ms] + rest)[0] == ms);
                        }
                        Ok(v)
                    },
                    Err(e) => Err(e),
                },
                Err(e) => Err(e),
            }
        }
    }

    /// Converts a token sequence into a module, an ordered sequence of
    /// top-level statements, or the first error met: exactly what
    /// `spec_parse` describes.
    pub fn parse(tokens: Vec<Token>) -> (r: Result<Module, BoError>)
        ensures
            match r {
                Ok(m) => spec_parse(tokens@) matches Ok(ms) && stmts_match(ms, m.statements@),
                Err(e) => spec_parse(tokens@) matches Err(se) && err_matches(se, e),
            },
    {
        let parser = Parser { tokens };
        match parser.stmts(0) {
            Ok(v) => Ok(Module { statements: v }),
            Err(e) => Err(e),
        }
    }
}

} // verus!

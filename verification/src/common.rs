//! Shared vocabulary of the front end: operator and keyword kinds, literal
//! values, tokens, and the ghost-level models that the scanner and parser
//! contracts are stated over.

use vstd::prelude::*;

use crate::bo_error::BoError;

verus! {

/// The closed set of operator and punctuation symbols. Multi-character
/// spellings are separate members: the scanner always prefers the longest
/// spelling that matches.
#[derive(Clone, Copy, Debug, PartialEq, Eq, Structural)]
pub enum Op {
    Plus,
    PlusEqual,
    Minus,
    MinusEqual,
    Star,
    StarEqual,
    FrontSlash,
    FrontSlashEqual,
    Percent,
    PercentEqual,
    Bang,
    BangEqual,
    Equal,
    EqualEqual,
    Less,
    LessEqual,
    LessLess,
    Greater,
    GreaterEqual,
    GreaterGreater,
    Carrot,
    CarrotEqual,
    Tilde,
    TildeEqual,
    Colon,
    ColonColon,
    Semicolon,
    Stop,
    StopStop,
    Pipe,
    PipePipe,
    PipeEqual,
    And,
    AndAnd,
    AndEqual,
    Comma,
    LeftParen,
    RightParen,
    LeftBracket,
    RightBracket,
    LeftBrace,
    RightBrace,
}

/// The closed set of reserved identifiers.
#[derive(Clone, Copy, Debug, PartialEq, Eq, Structural)]
pub enum Keyword {
    Let,
    Pub,
    Struct,
    Import,
    From,
    If,
    Else,
    While,
    Loop,
    Break,
    Continue,
    Return,
}

/// A literal value. The scanner produces `Int`, `Float`, `Bool` and `Str`;
/// the remaining members keep the value domain open for later growth and are
/// never produced by this front end.
///
/// A floating-point literal is kept as its two digit runs exactly as written
/// (the digits before the dot and the digits after it), so the token reflects
/// the lexical text; callers convert to their preferred binary format. A
/// dictionary is kept as key-value pairs whose order carries no meaning.
#[derive(Debug, PartialEq)]
pub enum Value {
    Int(i64),
    Float(String, String),
    Bool(bool),
    Str(String),
    Array(Vec<Value>),
    Dict(Vec<(String, Value)>),
    Function(usize),
}

/// Deep structural equality on literal values, comparing owned text by its
/// character sequence.
pub open spec fn value_like(a: Value, b: Value) -> bool
    decreases a,
{
    match (a, b) {
        (Value::Int(x), Value::Int(y)) => x == y,
        (Value::Float(xw, xf), Value::Float(yw, yf)) => xw@ == yw@ && xf@ == yf@,
        (Value::Bool(x), Value::Bool(y)) => x == y,
        (Value::Str(x), Value::Str(y)) => x@ == y@,
        (Value::Array(xs), Value::Array(ys)) => values_like(xs@, ys@),
        (Value::Dict(xs), Value::Dict(ys)) => pairs_like(xs@, ys@),
        (Value::Function(x), Value::Function(y)) => x == y,
        _ => false,
    }
}

/// Elementwise `value_like` over two sequences of values.
pub open spec fn values_like(a: Seq<Value>, b: Seq<Value>) -> bool
    decreases a,
{
    if a.len() != b.len() {
        false
    } else if a.len() == 0 {
        true
    } else {
        value_like(a.first(), b.first()) && values_like(a.drop_first(), b.drop_first())
    }
}

/// Elementwise equality over two sequences of keyed values: keys are compared
/// by their character sequences, values by `value_like`.
pub open spec fn pairs_like(a: Seq<(String, Value)>, b: Seq<(String, Value)>) -> bool
    decreases a,
{
    if a.len() != b.len() {
        false
    } else if a.len() == 0 {
        true
    } else {
        a.first().0@ == b.first().0@ && value_like(a.first().1, b.first().1) && pairs_like(
            a.drop_first(),
            b.drop_first(),
        )
    }
}

/// Two value sequences that agree elementwise under `value_like` are
/// `values_like` as wholes.
pub proof fn lemma_values_like_pointwise(a: Seq<Value>, b: Seq<Value>)
    requires
        a.len() == b.len(),
        forall|i: int| 0 <= i < a.len() ==> #[trigger] value_like(a[i], b[i]),
    ensures
        values_like(a, b),
    decreases a.len(),
{
    if a.len() > 0 {
        assert(value_like(a[0], b[0]));
        assert forall|i: int| 0 <= i < a.drop_first().len() implies #[trigger] value_like(
            a.drop_first()[i],
            b.drop_first()[i],
        ) by {
            assert(value_like(a[i + 1], b[i + 1]));
        }
        lemma_values_like_pointwise(a.drop_first(), b.drop_first());
    }
}

/// Two keyed-value sequences that agree elementwise are `pairs_like` as
/// wholes.
pub proof fn lemma_pairs_like_pointwise(a: Seq<(String, Value)>, b: Seq<(String, Value)>)
    requires
        a.len() == b.len(),
        forall|i: int|
            0 <= i < a.len() ==> (#[trigger] a[i]).0@ == b[i].0@ && value_like(a[i].1, b[i].1),
    ensures
        pairs_like(a, b),
    decreases a.len(),
{
    if a.len() > 0 {
        assert(a[0].0@ == b[0].0@ && value_like(a[0].1, b[0].1));
        assert forall|i: int|
            0 <= i < a.drop_first().len() implies (#[trigger] a.drop_first()[i]).0@
            == b.drop_first()[i].0@ && value_like(a.drop_first()[i].1, b.drop_first()[i].1) by {
            assert(a[i + 1].0@ == b[i + 1].0@ && value_like(a[i + 1].1, b[i + 1].1));
        }
        lemma_pairs_like_pointwise(a.drop_first(), b.drop_first());
    }
}

impl Clone for Value {
    /// A deep copy: equal to the original in every observable field.
    fn clone(&self) -> (r: Self)
        ensures
            value_like(*self, r),
        decreases self,
    {
        match self {
            Value::Int(x) => Value::Int(*x),
            Value::Float(w, f) => Value::Float(w.clone(), f.clone()),
            Value::Bool(x) => Value::Bool(*x),
            Value::Str(s) => Value::Str(s.clone()),
            Value::Array(xs) => {
                let mut out: Vec<Value> = Vec::new();
                let n = xs.len();
                let mut i: usize = 0;
                while i < n
                    invariant
                        *self == Value::Array(*xs),
                        n == xs@.len(),
                        i <= n,
                        out@.len() == i,
                        forall|j: int| 0 <= j < i ==> #[trigger] value_like(xs@[j], out@[j]),
                    decreases n - i,
                {
                    proof {
                        assert(decreases_to!(*self => self->Array_0));
                        assert(decreases_to!(*xs => xs@));
                        assert(decreases_to!(xs@ => xs@[i as int]));
                    }
                    out.push(xs[i].clone());
                    i = i + 1;
                }
                let res = Value::Array(out);
                proof {
                    lemma_values_like_pointwise(xs@, out@);
                }
                res
            },
            Value::Dict(xs) => {
                let mut out: Vec<(String, Value)> = Vec::new();
                let n = xs.len();
                let mut i: usize = 0;
                while i < n
                    invariant
                        *self == Value::Dict(*xs),
                        n == xs@.len(),
                        i <= n,
                        out@.len() == i,
                        forall|j: int|
                            0 <= j < i ==> (#[trigger] xs@[j]).0@ == out@[j].0@ && value_like(
                                xs@[j].1,
                                out@[j].1,
                            ),
                    decreases n - i,
                {
                    proof {
                        assert(decreases_to!(*self => self->Dict_0));
                        assert(decreases_to!(*xs => xs@));
                        assert(decreases_to!(xs@ => xs@[i as int]));
                        assert(decreases_to!(xs@[i as int] => xs@[i as int].1));
                    }
                    let pair = (xs[i].0.clone(), xs[i].1.clone());
                    out.push(pair);
                    i = i + 1;
                }
                proof {
                    lemma_pairs_like_pointwise(xs@, out@);
                }
                Value::Dict(out)
            },
            Value::Function(x) => Value::Function(*x),
        }
    }
}

/// What a token is: an operator, a keyword, a literal value, or an identifier.
#[derive(Clone, Debug, PartialEq)]
pub enum TokenType {
    Op(Op),
    Keyword(Keyword),
    Literal(Value),
    Identifier(String),
}

/// A lexical token: its kind together with the character offset of its first
/// character in the source text.
#[derive(Clone, Debug)]
pub struct Token {
    pub token_type: TokenType,
    pub idx: usize,
}

impl Token {
    /// The keyword this token carries, if it is a keyword token.
    pub fn is_keyword(&self) -> (r: Option<Keyword>)
        ensures
            r == (match self.token_type {
                TokenType::Keyword(kw) => Some(kw),
                _ => None::<Keyword>,
            }),
    {
        match &self.token_type {
            TokenType::Keyword(kw) => Some(*kw),
            _ => None,
        }
    }

    /// The identifier text this token carries, if it is an identifier token.
    pub fn is_ident(&self) -> (r: Option<String>)
        ensures
            match self.token_type {
                TokenType::Identifier(s) => r matches Some(t) && t@ == s@,
                _ => r is None,
            },
    {
        match &self.token_type {
            TokenType::Identifier(s) => Some(s.clone()),
            _ => None,
        }
    }

    /// The literal value this token carries, if it is a literal token.
    pub fn is_value(&self) -> (r: Option<Value>)
        ensures
            match self.token_type {
                TokenType::Literal(v) => r matches Some(w) && value_like(v, w),
                _ => r is None,
            },
    {
        match &self.token_type {
            TokenType::Literal(v) => Some(v.clone()),
            _ => None,
        }
    }

    /// True when this token is the given operator.
    pub fn is_this_op(&self, op: Op) -> (r: bool)
        ensures
            r == (self.token_type == TokenType::Op(op)),
    {
        match &self.token_type {
            TokenType::Op(o) => *o == op,
            _ => false,
        }
    }

    /// The operator this token carries, if it is an operator token.
    pub fn is_op(&self) -> (r: Option<Op>)
        ensures
            r == (match self.token_type {
                TokenType::Op(op) => Some(op),
                _ => None::<Op>,
            }),
    {
        match &self.token_type {
            TokenType::Op(op) => Some(*op),
            _ => None,
        }
    }
}

/// Ghost model of a literal the scanner can produce, with owned text
/// abstracted to character sequences.
pub enum SpecLit {
    Int(i64),
    Float(Seq<char>, Seq<char>),
    Bool(bool),
    Str(Seq<char>),
}

/// Ghost model of a token kind the scanner can produce.
pub enum SpecTokenKind {
    Op(Op),
    Kw(Keyword),
    Lit(SpecLit),
    Ident(Seq<char>),
}

/// Ghost model of a token: its kind and the character offset of its first
/// character.
pub struct SpecToken {
    pub kind: SpecTokenKind,
    pub idx: int,
}

/// Ghost model of a diagnostic: its message as a character sequence and the
/// character offset at which the condition was detected.
pub struct SpecErr {
    pub msg: Seq<char>,
    pub idx: int,
}

/// The literal value `v` is exactly what the model literal `l` describes.
pub open spec fn lit_matches(l: SpecLit, v: Value) -> bool {
    match (l, v) {
        (SpecLit::Int(n), Value::Int(m)) => n == m,
        (SpecLit::Float(w, f), Value::Float(ws, fs)) => w == ws@ && f == fs@,
        (SpecLit::Bool(b), Value::Bool(c)) => b == c,
        (SpecLit::Str(s), Value::Str(t)) => s == t@,
        _ => false,
    }
}

/// The token kind `t` is exactly what the model kind `k` describes.
pub open spec fn kind_matches(k: SpecTokenKind, t: TokenType) -> bool {
    match (k, t) {
        (SpecTokenKind::Op(a), TokenType::Op(b)) => a == b,
        (SpecTokenKind::Kw(a), TokenType::Keyword(b)) => a == b,
        (SpecTokenKind::Lit(l), TokenType::Literal(v)) => lit_matches(l, v),
        (SpecTokenKind::Ident(s), TokenType::Identifier(t)) => s == t@,
        _ => false,
    }
}

/// The token `t` is exactly what the model token `st` describes: same
/// position and same kind, with owned text compared by its characters.
pub open spec fn token_matches(st: SpecToken, t: Token) -> bool {
    t.idx as int == st.idx && kind_matches(st.kind, t.token_type)
}

/// The token sequence `ts` is exactly what the model sequence `sts`
/// describes, token for token.
pub open spec fn tokens_match(sts: Seq<SpecToken>, ts: Seq<Token>) -> bool {
    sts.len() == ts.len() && forall|i: int|
        0 <= i < sts.len() ==> #[trigger] token_matches(sts[i], ts[i])
}

/// The error value `e` is exactly what the model error `se` describes.
pub open spec fn err_matches(se: SpecErr, e: BoError) -> bool {
    e.message@ == se.msg && e.char_idx as int == se.idx
}

} // verus!

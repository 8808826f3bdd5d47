use vstd::prelude::*;
use crate::ast::{Expr, Stmt, TypedArgument};
use crate::error::{ParseErrorKind, TranslateError};
use crate::lexer::{str_eq, tokens_wf, Lexeme, Token, TokenType};
use crate::value::{Value, ValueType};

verus! {

/// The source span a diagnostic at position `i` reports: the span of the
/// token there, or of the last token once the cursor has passed it.
pub open spec fn diag_span(ts: Seq<Token>, i: int) -> (int, int) {
    let j = if 0 <= i < ts.len() {
        i
    } else {
        ts.len() - 1
    };
    (ts[j].start as int, ts[j].end as int)
}

/// The token kind at position `i`, with the end-of-stream sentinel
/// standing in for every position past the sequence.
pub open spec fn kind_at(ts: Seq<Token>, i: int) -> TokenType {
    if 0 <= i < ts.len() {
        ts[i].token_type
    } else {
        TokenType::Eof
    }
}

/// An expression as a mathematical value: names and texts as character
/// sequences, structure as in the tree.
pub enum ExprModel {
    Num(u32),
    Text(Seq<char>),
    Var(Seq<char>),
    Binary(char, Box<ExprModel>, Box<ExprModel>),
    Condition(Seq<char>, Box<ExprModel>, Box<ExprModel>),
    Unary(char, Box<ExprModel>),
    Call(Seq<char>, Seq<ExprModel>),
    New(Seq<char>, Seq<ArgModel>),
}

/// A statement as a mathematical value.
pub enum StmtModel {
    VarDef(Seq<char>, Box<ExprModel>, ValueType),
    Assign(Seq<char>, Box<ExprModel>),
    If(Box<ExprModel>, Box<StmtModel>, Option<Box<StmtModel>>),
    Block(Seq<StmtModel>),
    While(Box<ExprModel>, Box<StmtModel>),
    Function(Box<ExprModel>),
    FunctionDef(Seq<char>, Seq<ArgModel>, Box<StmtModel>, ValueType),
    Return(Box<ExprModel>),
    Use(Seq<char>),
    Struct(Seq<char>, Seq<ArgModel>),
}

/// The mathematical value of an expression tree.
pub open spec fn expr_model(e: Expr) -> ExprModel
    decreases e, 0int, 0int,
{
    match e {
        Expr::Value(v) => match v {
            Value::Number(n) => ExprModel::Num(n),
            Value::String(s) => ExprModel::Text(s@),
        },
        Expr::VarUse(n) => ExprModel::Var(n@),
        Expr::Binary(op, l, r) => ExprModel::Binary(
            op,
            Box::new(expr_model(*l)),
            Box::new(expr_model(*r)),
        ),
        Expr::Condition(op, l, r) => ExprModel::Condition(
            op@,
            Box::new(expr_model(*l)),
            Box::new(expr_model(*r)),
        ),
        Expr::Unary(op, operand) => ExprModel::Unary(op, Box::new(expr_model(*operand))),
        Expr::Functional(n, args) => ExprModel::Call(n@, exprs_model(args, args.len() as int)),
        Expr::New(n, args) => ExprModel::New(n@, args_model(args@)),
    }
}

/// The mathematical values of the first `k` expressions of a list.
pub open spec fn exprs_model(args: Vec<Expr>, k: int) -> Seq<ExprModel>
    decreases args, 1int, k,
{
    if k <= 0 || k > args.len() {
        Seq::<ExprModel>::empty()
    } else {
        exprs_model(args, k - 1).push(expr_model(args[k - 1]))
    }
}

/// The mathematical value of a statement tree.
pub open spec fn stmt_model(s: Stmt) -> StmtModel
    decreases s, 0int, 0int,
{
    match s {
        Stmt::VarDef(n, e, t) => StmtModel::VarDef(n@, Box::new(expr_model(*e)), t),
        Stmt::Assign(n, e) => StmtModel::Assign(n@, Box::new(expr_model(*e))),
        Stmt::If(c, b, els) => StmtModel::If(
            Box::new(expr_model(*c)),
            Box::new(stmt_model(*b)),
            match *els {
                Some(eb) => Some(Box::new(stmt_model(eb))),
                None => None,
            },
        ),
        Stmt::Block(ss) => StmtModel::Block(stmts_model(ss, ss.len() as int)),
        Stmt::While(c, b) => StmtModel::While(Box::new(expr_model(*c)), Box::new(stmt_model(*b))),
        Stmt::Function(e) => StmtModel::Function(Box::new(expr_model(*e))),
        Stmt::FunctionDef(n, args, body, ret) => StmtModel::FunctionDef(
            n@,
            args_model(args@),
            Box::new(stmt_model(*body)),
            ret,
        ),
        Stmt::Return(e) => StmtModel::Return(Box::new(expr_model(*e))),
        Stmt::Use(n) => StmtModel::Use(n@),
        Stmt::Struct(n, fields) => StmtModel::Struct(n@, args_model(fields@)),
    }
}

/// The mathematical values of the first `k` statements of a list.
pub open spec fn stmts_model(ss: Vec<Stmt>, k: int) -> Seq<StmtModel>
    decreases ss, 1int, k,
{
    if k <= 0 || k > ss.len() {
        Seq::<StmtModel>::empty()
    } else {
        stmts_model(ss, k - 1).push(stmt_model(ss[k - 1]))
    }
}

/// A recursive-descent parser over a lexed token sequence: one token of
/// active lookahead plus explicit relative-offset peeking, no
/// backtracking, no error recovery — the first structural mismatch stops
/// the whole parse with an expected-versus-found diagnostic.
pub struct Parser {
    pub tokens: Vec<Token>,
    pub pos: usize,
}

impl Parser {
    /// A fresh parser over the given token sequence.
    pub fn new(tokens: Vec<Token>) -> (r: Parser)
        ensures
            r.tokens == tokens,
            r.pos == 0,
    {
        Parser { tokens, pos: 0 }
    }

    /// The token kind `rel` positions ahead of the cursor.
    fn peek_kind(&self, rel: usize) -> (r: TokenType)
        requires
            self.pos <= self.tokens@.len(),
        ensures
            r == kind_at(self.tokens@, self.pos + rel),
    {
        if self.pos < self.tokens.len() && rel < self.tokens.len() - self.pos {
            self.tokens[self.pos + rel].token_type
        } else {
            TokenType::Eof
        }
    }

    /// The source span of the token at the cursor (or of the sentinel,
    /// when the cursor has passed it), for diagnostics.
    fn current_span(&self) -> (r: (usize, usize))
        requires
            tokens_wf(self.tokens@),
            self.pos <= self.tokens@.len(),
        ensures
            (r.0 as int, r.1 as int) == diag_span(self.tokens@, self.pos as int),
    {
        let idx = if self.pos < self.tokens.len() {
            self.pos
        } else {
            self.tokens.len() - 1
        };
        (self.tokens[idx].start, self.tokens[idx].end)
    }

    /// If the token at the cursor has the given kind, consumes it and
    /// answers true; otherwise leaves the cursor alone.
    fn check(&mut self, tt: TokenType) -> (r: bool)
        requires
            old(self).pos <= old(self).tokens@.len(),
        ensures
            final(self).tokens == old(self).tokens,
            r == (kind_at(old(self).tokens@, old(self).pos as int) == tt),
            final(self).pos == if r && old(self).pos < old(self).tokens@.len() {
                old(self).pos + 1
            } else {
                old(self).pos as int
            },
            old(self).pos <= final(self).pos <= final(self).tokens@.len(),
    {
        let k = self.peek_kind(0);
        if k == tt {
            if self.pos < self.tokens.len() {
                self.pos += 1;
            }
            true
        } else {
            false
        }
    }

    /// Demands a token of the given kind at the cursor and consumes it;
    /// any other kind is the fatal expected-versus-found mismatch.
    fn consume(&mut self, tt: TokenType) -> (r: Result<(), TranslateError>)
        requires
            tokens_wf(old(self).tokens@),
            old(self).pos <= old(self).tokens@.len(),
        ensures
            final(self).tokens == old(self).tokens,
            old(self).pos <= final(self).pos <= final(self).tokens@.len(),
            r is Ok ==> kind_at(old(self).tokens@, old(self).pos as int) == tt && final(self).pos
                == old(self).pos + 1,
            r matches Err(e) ==> e is Parse && final(self).pos == old(self).pos && (kind_at(
                old(self).tokens@,
                old(self).pos as int,
            ) != tt || tt == TokenType::Eof),
            r matches Err(e) ==> e matches TranslateError::Parse {
                kind: ParseErrorKind::UnexpectedToken { expected, found },
                ..
            } && expected == tt && found == kind_at(old(self).tokens@, old(self).pos as int),
            r matches Err(e) ==> e matches TranslateError::Parse { start, end, .. } && (
            start as int,
            end as int,
            ) == diag_span(old(self).tokens@, old(self).pos as int),
    {
        let k = self.peek_kind(0);
        if k == tt && self.pos < self.tokens.len() {
            self.pos += 1;
            Ok(())
        } else {
            let span = self.current_span();
            Err(
                TranslateError::Parse {
                    kind: ParseErrorKind::UnexpectedToken { expected: tt, found: k },
                    start: span.0,
                    end: span.1,
                },
            )
        }
    }

    /// Demands a generic identifier token at the cursor, consumes it and
    /// hands out exactly the word it carries.
    fn consume_word(&mut self) -> (r: Result<String, TranslateError>)
        requires
            tokens_wf(old(self).tokens@),
            old(self).pos <= old(self).tokens@.len(),
        ensures
            final(self).tokens == old(self).tokens,
            old(self).pos <= final(self).pos <= final(self).tokens@.len(),
            r matches Ok(w) ==> {
                &&& final(self).pos == old(self).pos + 1
                &&& kind_at(old(self).tokens@, old(self).pos as int) == TokenType::Word
                &&& (old(self).tokens@[old(self).pos as int].lexeme matches Lexeme::WordLexeme(x)
                    && w@ == x@)
            },
            r matches Err(e) ==> e is Parse && final(self).pos == old(self).pos
                && kind_at(old(self).tokens@, old(self).pos as int) != TokenType::Word,
            r matches Err(e) ==> e matches TranslateError::Parse {
                kind: ParseErrorKind::UnexpectedToken { expected, found },
                ..
            } && expected == TokenType::Word && found == kind_at(
                old(self).tokens@,
                old(self).pos as int,
            ),
            r matches Err(e) ==> e matches TranslateError::Parse { start, end, .. } && (
            start as int,
            end as int,
            ) == diag_span(old(self).tokens@, old(self).pos as int),
    {
        let k = self.peek_kind(0);
        if k == TokenType::Word && self.pos < self.tokens.len() {
            let t = &self.tokens[self.pos];
            let word = match &t.lexeme {
                Lexeme::WordLexeme(w) => w.clone(),
                // a word token always carries a word lexeme
                _ => {
                    proof {
                        assert(token_wf_at(self.tokens@, self.pos as int));
                        assert(false);
                    }
                    String::new()
                },
            };
            self.pos += 1;
            Ok(word)
        } else {
            let span = self.current_span();
            Err(
                TranslateError::Parse {
                    kind: ParseErrorKind::UnexpectedToken { expected: TokenType::Word, found: k },
                    start: span.0,
                    end: span.1,
                },
            )
        }
    }
}

/// The well-formedness of the token at one position, for pointwise use.
pub open spec fn token_wf_at(ts: Seq<Token>, i: int) -> bool {
    0 <= i < ts.len() ==> crate::lexer::token_wf(ts[i])
}

/// The declared type a type name denotes, when it names one: exactly
/// `number`, `string` or `unit`.
pub open spec fn type_of_word(w: Seq<char>) -> Option<ValueType> {
    if w == "number"@ {
        Some(ValueType::Number)
    } else if w == "string"@ {
        Some(ValueType::String)
    } else if w == "unit"@ {
        Some(ValueType::Unit)
    } else {
        None
    }
}

/// The word a generic identifier token at position `i` carries.
pub open spec fn word_at(ts: Seq<Token>, i: int) -> Seq<char> {
    if 0 <= i < ts.len() {
        match ts[i].lexeme {
            Lexeme::WordLexeme(w) => w@,
            _ => Seq::<char>::empty(),
        }
    } else {
        Seq::<char>::empty()
    }
}

/// A typed argument as a mathematical value: a name and a declared type.
pub struct ArgModel {
    pub name: Seq<char>,
    pub typ: ValueType,
}

/// The mathematical value of one typed argument.
pub open spec fn arg_model(a: TypedArgument) -> ArgModel {
    ArgModel { name: a.name@, typ: a.typ }
}

/// The mathematical value of a typed-argument list.
pub open spec fn args_model(args: Seq<TypedArgument>) -> Seq<ArgModel> {
    args.map_values(|a: TypedArgument| arg_model(a))
}

/// Prepends one argument to a scan's outcome; a failure stays a failure.
pub open spec fn targs_cons(am: ArgModel, rest: Option<(Seq<ArgModel>, int)>) -> Option<
    (Seq<ArgModel>, int),
> {
    match rest {
        Some((args, end)) => Some((seq![am] + args, end)),
        None => None,
    }
}

/// What scanning a delimited `name : type` list from `pos` produces: the
/// arguments in order and the position after the closing delimiter. An
/// interior or trailing comma is consumed when present but never
/// demanded; anything that is neither the closing delimiter nor a
/// well-formed `name : type` entry fails the scan.
pub open spec fn typed_args_scan(ts: Seq<Token>, pos: int, right: TokenType) -> Option<
    (Seq<ArgModel>, int),
>
    decreases ts.len() - pos
        when 0 <= pos
        via typed_args_scan_dec
{
    if kind_at(ts, pos) == right {
        Some((Seq::<ArgModel>::empty(), pos + 1))
    } else if kind_at(ts, pos) == TokenType::Word && kind_at(ts, pos + 1) == TokenType::Colon
        && kind_at(ts, pos + 2) == TokenType::Word {
        match type_of_word(word_at(ts, pos + 2)) {
            Some(vt) => {
                let next = if kind_at(ts, pos + 3) == TokenType::Comma {
                    pos + 4
                } else {
                    pos + 3
                };
                targs_cons(
                    ArgModel { name: word_at(ts, pos), typ: vt },
                    typed_args_scan(ts, next, right),
                )
            },
            None => None,
        }
    } else {
        None
    }
}

#[via_fn]
proof fn typed_args_scan_dec(ts: Seq<Token>, pos: int, right: TokenType) {
    if kind_at(ts, pos) != right && kind_at(ts, pos) == TokenType::Word && kind_at(ts, pos + 1)
        == TokenType::Colon && kind_at(ts, pos + 2) == TokenType::Word {
        assert(pos + 2 < ts.len());
        if kind_at(ts, pos + 3) == TokenType::Comma {
            assert(pos + 3 < ts.len());
        }
    }
}

/// An argument's model rides along when the argument is appended.
proof fn lemma_args_push(args: Seq<TypedArgument>, a: TypedArgument)
    ensures
        args_model(args.push(a)) == args_model(args).push(arg_model(a)),
{
    assert(args_model(args.push(a)) =~= args_model(args).push(arg_model(a)));
}

/// The arguments scanned so far plus the scan still to come make up the
/// whole scan.
pub open spec fn targs_continues(
    ts: Seq<Token>,
    right: TokenType,
    entry: int,
    done: Seq<ArgModel>,
    pos: int,
) -> bool {
    match typed_args_scan(ts, pos, right) {
        Some((rest, end)) => typed_args_scan(ts, entry, right) == Some((done + rest, end)),
        None => typed_args_scan(ts, entry, right) is None,
    }
}

proof fn lemma_targs_start(ts: Seq<Token>, right: TokenType, entry: int)
    ensures
        targs_continues(ts, right, entry, args_model(Seq::<TypedArgument>::empty()), entry),
{
    assert(args_model(Seq::<TypedArgument>::empty()) =~= Seq::<ArgModel>::empty());
    if typed_args_scan(ts, entry, right) is Some {
        let rest = typed_args_scan(ts, entry, right)->Some_0.0;
        assert(args_model(Seq::<TypedArgument>::empty()) + rest =~= rest);
    }
}

/// Scanning one more argument carries the composition forward.
proof fn lemma_targs_step(
    ts: Seq<Token>,
    right: TokenType,
    entry: int,
    done: Seq<ArgModel>,
    q: int,
    am: ArgModel,
    next: int,
)
    requires
        targs_continues(ts, right, entry, done, q),
        typed_args_scan(ts, q, right) == targs_cons(am, typed_args_scan(ts, next, right)),
    ensures
        targs_continues(ts, right, entry, done.push(am), next),
{
    if typed_args_scan(ts, next, right) is Some {
        let rest2 = typed_args_scan(ts, next, right)->Some_0.0;
        let end2 = typed_args_scan(ts, next, right)->Some_0.1;
        assert(typed_args_scan(ts, q, right) == Some((seq![am] + rest2, end2)));
        assert(done + (seq![am] + rest2) =~= done.push(am) + rest2);
    }
}

/// The numeric value a number token at position `i` carries.
pub open spec fn num_at(ts: Seq<Token>, i: int) -> u32 {
    if 0 <= i < ts.len() {
        match ts[i].lexeme {
            Lexeme::NumberLexeme(v) => v,
            _ => 0,
        }
    } else {
        0
    }
}

/// The text a string token at position `i` carries.
pub open spec fn text_at(ts: Seq<Token>, i: int) -> Seq<char> {
    if 0 <= i < ts.len() {
        match ts[i].lexeme {
            Lexeme::StringLexeme(t) => t@,
            _ => Seq::<char>::empty(),
        }
    } else {
        Seq::<char>::empty()
    }
}

/// A position forced into `[lo, hi]`. The parser's spec uses it on the
/// positions its sub-scans return, so that termination is syntactic; a
/// sub-scan's position always lies in range, so the clamp changes
/// nothing.
pub open spec fn clamp_pos(lo: int, hi: int, x: int) -> int {
    if x < lo {
        if lo > hi {
            hi
        } else {
            lo
        }
    } else if x > hi {
        hi
    } else {
        x
    }
}

/// The spec-level parse of one call: a name, a parenthesized
/// comma-separated argument list.
pub open spec fn sp_call(ts: Seq<Token>, pos: int) -> Option<(ExprModel, int)>
    decreases ts.len() - pos, 0int when 0 <= pos <= ts.len()
{
    if kind_at(ts, pos) == TokenType::Word && kind_at(ts, pos + 1) == TokenType::LeftParen {
        match sp_call_args(ts, pos + 2) {
            Some((args, p)) => Some((ExprModel::Call(word_at(ts, pos), args), p)),
            None => None,
        }
    } else {
        None
    }
}

/// The spec-level parse of a call's remaining arguments, up to the
/// closing parenthesis; an interior or trailing comma is consumed when
/// present.
pub open spec fn sp_call_args(ts: Seq<Token>, pos: int) -> Option<(Seq<ExprModel>, int)>
    decreases ts.len() - pos, 10int when 0 <= pos <= ts.len()
{
    if pos >= ts.len() {
        None
    } else if kind_at(ts, pos) == TokenType::RightParen {
        Some((Seq::<ExprModel>::empty(), pos + 1))
    } else {
        match sp_expression(ts, pos) {
            Some((e, p)) => {
                let q = clamp_pos(pos + 1, ts.len() as int, p);
                let q2 = if kind_at(ts, q) == TokenType::Comma {
                    q + 1
                } else {
                    q
                };
                match sp_call_args(ts, q2) {
                    Some((rest, pe)) => Some((seq![e] + rest, pe)),
                    None => None,
                }
            },
            None => None,
        }
    }
}

/// The spec-level parse of a primary form.
pub open spec fn sp_primary(ts: Seq<Token>, pos: int) -> Option<(ExprModel, int)>
    decreases ts.len() - pos, 1int when 0 <= pos <= ts.len()
{
    if kind_at(ts, pos) == TokenType::Number {
        Some((ExprModel::Num(num_at(ts, pos)), pos + 1))
    } else if kind_at(ts, pos) == TokenType::String {
        Some((ExprModel::Text(text_at(ts, pos)), pos + 1))
    } else if kind_at(ts, pos) == TokenType::New && kind_at(ts, pos + 1) == TokenType::Word {
        if kind_at(ts, pos + 2) == TokenType::LeftParen {
            match typed_args_scan(ts, pos + 3, TokenType::RightParen) {
                Some((args, p)) => Some((ExprModel::New(word_at(ts, pos + 1), args), p)),
                None => None,
            }
        } else {
            None
        }
    } else if kind_at(ts, pos) == TokenType::Word && kind_at(ts, pos + 1)
        == TokenType::LeftParen {
        sp_call(ts, pos)
    } else if kind_at(ts, pos) == TokenType::Word {
        Some((ExprModel::Var(word_at(ts, pos)), pos + 1))
    } else if kind_at(ts, pos) == TokenType::LeftParen {
        match sp_expression(ts, pos + 1) {
            Some((e, p)) => {
                let q = clamp_pos(pos + 2, ts.len() as int, p);
                if kind_at(ts, q) == TokenType::RightParen {
                    Some((e, q + 1))
                } else {
                    None
                }
            },
            None => None,
        }
    } else {
        None
    }
}

/// The spec-level parse of a unary form: a prefix minus wraps exactly
/// one primary.
pub open spec fn sp_unary(ts: Seq<Token>, pos: int) -> Option<(ExprModel, int)>
    decreases ts.len() - pos, 2int when 0 <= pos <= ts.len()
{
    if kind_at(ts, pos) == TokenType::Minus {
        match sp_primary(ts, pos + 1) {
            Some((e, p)) => Some((ExprModel::Unary('-', Box::new(e)), p)),
            None => None,
        }
    } else {
        sp_primary(ts, pos)
    }
}

/// The spec-level multiplicative chain: left-associative `*` and `/`
/// over unary operands.
pub open spec fn sp_multiply(ts: Seq<Token>, pos: int) -> Option<(ExprModel, int)>
    decreases ts.len() - pos, 3int when 0 <= pos <= ts.len()
{
    match sp_unary(ts, pos) {
        Some((e, p)) => sp_multiply_rest(ts, clamp_pos(pos + 1, ts.len() as int, p), e),
        None => None,
    }
}

pub open spec fn sp_multiply_rest(ts: Seq<Token>, pos: int, acc: ExprModel) -> Option<
    (ExprModel, int),
>
    decreases ts.len() - pos, 0int when 0 <= pos <= ts.len()
{
    if kind_at(ts, pos) == TokenType::Star || kind_at(ts, pos) == TokenType::Slash {
        let op = if kind_at(ts, pos) == TokenType::Star {
            '*'
        } else {
            '/'
        };
        match sp_unary(ts, pos + 1) {
            Some((r, p)) => sp_multiply_rest(
                ts,
                clamp_pos(pos + 2, ts.len() as int, p),
                ExprModel::Binary(op, Box::new(acc), Box::new(r)),
            ),
            None => None,
        }
    } else {
        Some((acc, pos))
    }
}

/// The spec-level additive chain: left-associative `+` and `-` over
/// whole multiplicative chains, so multiplication binds tighter.
pub open spec fn sp_addition(ts: Seq<Token>, pos: int) -> Option<(ExprModel, int)>
    decreases ts.len() - pos, 4int when 0 <= pos <= ts.len()
{
    match sp_multiply(ts, pos) {
        Some((e, p)) => sp_addition_rest(ts, clamp_pos(pos + 1, ts.len() as int, p), e),
        None => None,
    }
}

pub open spec fn sp_addition_rest(ts: Seq<Token>, pos: int, acc: ExprModel) -> Option<
    (ExprModel, int),
>
    decreases ts.len() - pos, 0int when 0 <= pos <= ts.len()
{
    if kind_at(ts, pos) == TokenType::Plus || kind_at(ts, pos) == TokenType::Minus {
        let op = if kind_at(ts, pos) == TokenType::Plus {
            '+'
        } else {
            '-'
        };
        match sp_multiply(ts, pos + 1) {
            Some((r, p)) => sp_addition_rest(
                ts,
                clamp_pos(pos + 2, ts.len() as int, p),
                ExprModel::Binary(op, Box::new(acc), Box::new(r)),
            ),
            None => None,
        }
    } else {
        Some((acc, pos))
    }
}

/// The spec-level relational chain: left-associative `>` `<` `>=` `<=`.
pub open spec fn sp_compare(ts: Seq<Token>, pos: int) -> Option<(ExprModel, int)>
    decreases ts.len() - pos, 5int when 0 <= pos <= ts.len()
{
    match sp_addition(ts, pos) {
        Some((e, p)) => sp_compare_rest(ts, clamp_pos(pos + 1, ts.len() as int, p), e),
        None => None,
    }
}

/// The relational spelling a relational token carries.
pub open spec fn compare_op_text(tt: TokenType) -> Seq<char> {
    if tt == TokenType::Gt {
        ">"@
    } else if tt == TokenType::Lt {
        "<"@
    } else if tt == TokenType::GtEq {
        ">="@
    } else {
        "<="@
    }
}

pub open spec fn sp_compare_rest(ts: Seq<Token>, pos: int, acc: ExprModel) -> Option<
    (ExprModel, int),
>
    decreases ts.len() - pos, 0int when 0 <= pos <= ts.len()
{
    if kind_at(ts, pos) == TokenType::Gt || kind_at(ts, pos) == TokenType::Lt || kind_at(ts, pos)
        == TokenType::GtEq || kind_at(ts, pos) == TokenType::LtEq {
        match sp_addition(ts, pos + 1) {
            Some((r, p)) => sp_compare_rest(
                ts,
                clamp_pos(pos + 2, ts.len() as int, p),
                ExprModel::Condition(compare_op_text(kind_at(ts, pos)), Box::new(acc), Box::new(r)),
            ),
            None => None,
        }
    } else {
        Some((acc, pos))
    }
}

/// The spec-level equality chain: left-associative `==` and `!=`.
pub open spec fn sp_equal(ts: Seq<Token>, pos: int) -> Option<(ExprModel, int)>
    decreases ts.len() - pos, 6int when 0 <= pos <= ts.len()
{
    match sp_compare(ts, pos) {
        Some((e, p)) => sp_equal_rest(ts, clamp_pos(pos + 1, ts.len() as int, p), e),
        None => None,
    }
}

pub open spec fn sp_equal_rest(ts: Seq<Token>, pos: int, acc: ExprModel) -> Option<
    (ExprModel, int),
>
    decreases ts.len() - pos, 0int when 0 <= pos <= ts.len()
{
    if kind_at(ts, pos) == TokenType::EqEq || kind_at(ts, pos) == TokenType::NoEq {
        let op = if kind_at(ts, pos) == TokenType::EqEq {
            "=="@
        } else {
            "!="@
        };
        match sp_compare(ts, pos + 1) {
            Some((r, p)) => sp_equal_rest(
                ts,
                clamp_pos(pos + 2, ts.len() as int, p),
                ExprModel::Condition(op, Box::new(acc), Box::new(r)),
            ),
            None => None,
        }
    } else {
        Some((acc, pos))
    }
}

/// The spec-level conjunction chain: left-associative `&&`.
pub open spec fn sp_and(ts: Seq<Token>, pos: int) -> Option<(ExprModel, int)>
    decreases ts.len() - pos, 7int when 0 <= pos <= ts.len()
{
    match sp_equal(ts, pos) {
        Some((e, p)) => sp_and_rest(ts, clamp_pos(pos + 1, ts.len() as int, p), e),
        None => None,
    }
}

pub open spec fn sp_and_rest(ts: Seq<Token>, pos: int, acc: ExprModel) -> Option<(ExprModel, int)>
    decreases ts.len() - pos, 0int when 0 <= pos <= ts.len()
{
    if kind_at(ts, pos) == TokenType::AndAnd {
        match sp_equal(ts, pos + 1) {
            Some((r, p)) => sp_and_rest(
                ts,
                clamp_pos(pos + 2, ts.len() as int, p),
                ExprModel::Condition("&&"@, Box::new(acc), Box::new(r)),
            ),
            None => None,
        }
    } else {
        Some((acc, pos))
    }
}

/// The spec-level disjunction chain: left-associative `||`, the loosest
/// level.
pub open spec fn sp_or(ts: Seq<Token>, pos: int) -> Option<(ExprModel, int)>
    decreases ts.len() - pos, 8int when 0 <= pos <= ts.len()
{
    match sp_and(ts, pos) {
        Some((e, p)) => sp_or_rest(ts, clamp_pos(pos + 1, ts.len() as int, p), e),
        None => None,
    }
}

pub open spec fn sp_or_rest(ts: Seq<Token>, pos: int, acc: ExprModel) -> Option<(ExprModel, int)>
    decreases ts.len() - pos, 0int when 0 <= pos <= ts.len()
{
    if kind_at(ts, pos) == TokenType::OrOr {
        match sp_and(ts, pos + 1) {
            Some((r, p)) => sp_or_rest(
                ts,
                clamp_pos(pos + 2, ts.len() as int, p),
                ExprModel::Condition("||"@, Box::new(acc), Box::new(r)),
            ),
            None => None,
        }
    } else {
        Some((acc, pos))
    }
}

/// The spec-level parse of one whole expression: the precedence tower
/// from `||` down to primaries. Opaque so that mentions of it stay
/// small; `expression` reveals it once.
#[verifier::opaque]
pub open spec fn sp_expression(ts: Seq<Token>, pos: int) -> Option<(ExprModel, int)>
    decreases ts.len() - pos, 9int when 0 <= pos <= ts.len()
{
    sp_or(ts, pos)
}

/// The spec-level parse of `: typename`.
pub open spec fn sp_value_type(ts: Seq<Token>, pos: int) -> Option<(ValueType, int)> {
    if kind_at(ts, pos) == TokenType::Colon && kind_at(ts, pos + 1) == TokenType::Word {
        match type_of_word(word_at(ts, pos + 1)) {
            Some(vt) => Some((vt, pos + 2)),
            None => None,
        }
    } else {
        None
    }
}

/// The spec-level parse of `use name`, after the keyword.
pub open spec fn sp_use(ts: Seq<Token>, pos: int) -> Option<(StmtModel, int)> {
    if kind_at(ts, pos) == TokenType::Word {
        Some((StmtModel::Use(word_at(ts, pos)), pos + 1))
    } else {
        None
    }
}

/// The spec-level parse of `struct Name { fields }`, after the keyword.
pub open spec fn sp_struct(ts: Seq<Token>, pos: int) -> Option<(StmtModel, int)> {
    if kind_at(ts, pos) == TokenType::Word && kind_at(ts, pos + 1) == TokenType::LeftBrace {
        match typed_args_scan(ts, pos + 2, TokenType::RightBrace) {
            Some((fields, p)) => Some((StmtModel::Struct(word_at(ts, pos), fields), p)),
            None => None,
        }
    } else {
        None
    }
}

/// The spec-level parse of `name: type = expr`, after the `var` keyword.
pub open spec fn sp_vardef(ts: Seq<Token>, pos: int) -> Option<(StmtModel, int)>
    decreases ts.len() - pos, 11int when 0 <= pos <= ts.len()
{
    if kind_at(ts, pos) == TokenType::Word && kind_at(ts, pos + 1) == TokenType::Colon && kind_at(
        ts,
        pos + 2,
    ) == TokenType::Word && kind_at(ts, pos + 3) == TokenType::Eq {
        match type_of_word(word_at(ts, pos + 2)) {
            Some(vt) => match sp_expression(ts, pos + 4) {
                Some((e, p)) => Some((StmtModel::VarDef(word_at(ts, pos), Box::new(e), vt), p)),
                None => None,
            },
            None => None,
        }
    } else {
        None
    }
}

/// The spec-level parse of `name = expr`.
pub open spec fn sp_assign(ts: Seq<Token>, pos: int) -> Option<(StmtModel, int)>
    decreases ts.len() - pos, 11int when 0 <= pos <= ts.len()
{
    if kind_at(ts, pos) == TokenType::Word && kind_at(ts, pos + 1) == TokenType::Eq {
        match sp_expression(ts, pos + 2) {
            Some((e, p)) => Some((StmtModel::Assign(word_at(ts, pos), Box::new(e)), p)),
            None => None,
        }
    } else {
        None
    }
}

/// The spec-level parse of `cond body [else body]`, after the `if`
/// keyword.
pub open spec fn sp_if(ts: Seq<Token>, pos: int) -> Option<(StmtModel, int)>
    decreases ts.len() - pos, 11int when 0 <= pos <= ts.len()
{
    if pos >= ts.len() {
        None
    } else {
    match sp_expression(ts, pos) {
        Some((c, p1)) => {
            let q1 = clamp_pos(pos + 1, ts.len() as int, p1);
            match sp_sob(ts, q1) {
                Some((b, p2)) => {
                    let q2 = clamp_pos(q1 + 1, ts.len() as int, p2);
                    if kind_at(ts, q2) == TokenType::Else {
                        match sp_sob(ts, q2 + 1) {
                            Some((eb, p3)) => Some(
                                (
                                    StmtModel::If(
                                        Box::new(c),
                                        Box::new(b),
                                        Some(Box::new(eb)),
                                    ),
                                    p3,
                                ),
                            ),
                            None => None,
                        }
                    } else {
                        Some((StmtModel::If(Box::new(c), Box::new(b), None), q2))
                    }
                },
                None => None,
            }
        },
        None => None,
    }
    }
}

/// The spec-level parse of `cond body`, after the `while` keyword.
pub open spec fn sp_while(ts: Seq<Token>, pos: int) -> Option<(StmtModel, int)>
    decreases ts.len() - pos, 11int when 0 <= pos <= ts.len()
{
    if pos >= ts.len() {
        None
    } else {
        match sp_expression(ts, pos) {
            Some((c, p1)) => {
                let q1 = clamp_pos(pos + 1, ts.len() as int, p1);
                match sp_sob(ts, q1) {
                    Some((b, p2)) => Some((StmtModel::While(Box::new(c), Box::new(b)), p2)),
                    None => None,
                }
            },
            None => None,
        }
    }
}

/// The spec-level parse of `name(params): type body`, after the `func`
/// keyword.
pub open spec fn sp_funcdef(ts: Seq<Token>, pos: int) -> Option<(StmtModel, int)>
    decreases ts.len() - pos, 11int when 0 <= pos <= ts.len()
{
    if pos < ts.len() && kind_at(ts, pos) == TokenType::Word && kind_at(ts, pos + 1)
        == TokenType::LeftParen {
        match typed_args_scan(ts, pos + 2, TokenType::RightParen) {
            Some((params, p1)) => {
                let q1 = clamp_pos(pos + 2, ts.len() as int, p1);
                match sp_value_type(ts, q1) {
                    Some((vt, p2)) => {
                        let q2 = clamp_pos(q1 + 1, ts.len() as int, p2);
                        match sp_sob(ts, q2) {
                            Some((b, p3)) => Some(
                                (
                                    StmtModel::FunctionDef(
                                        word_at(ts, pos),
                                        params,
                                        Box::new(b),
                                        vt,
                                    ),
                                    p3,
                                ),
                            ),
                            None => None,
                        }
                    },
                    None => None,
                }
            },
            None => None,
        }
    } else {
        None
    }
}

/// The spec-level statement dispatch on the leading token(s). Opaque so
/// that mentions of it stay small; `statement` reveals it once.
#[verifier::opaque]
pub open spec fn sp_statement(ts: Seq<Token>, pos: int) -> Option<(StmtModel, int)>
    decreases ts.len() - pos, 12int when 0 <= pos <= ts.len()
{
    if kind_at(ts, pos) == TokenType::If {
        sp_if(ts, pos + 1)
    } else if kind_at(ts, pos) == TokenType::Var {
        sp_vardef(ts, pos + 1)
    } else if kind_at(ts, pos) == TokenType::While {
        sp_while(ts, pos + 1)
    } else if kind_at(ts, pos) == TokenType::Word && kind_at(ts, pos + 1)
        == TokenType::LeftParen {
        match sp_call(ts, pos) {
            Some((e, p)) => Some((StmtModel::Function(Box::new(e)), p)),
            None => None,
        }
    } else if kind_at(ts, pos) == TokenType::Func {
        sp_funcdef(ts, pos + 1)
    } else if kind_at(ts, pos) == TokenType::Return {
        match sp_expression(ts, pos + 1) {
            Some((e, p)) => Some((StmtModel::Return(Box::new(e)), p)),
            None => None,
        }
    } else if kind_at(ts, pos) == TokenType::Use {
        sp_use(ts, pos + 1)
    } else if kind_at(ts, pos) == TokenType::Struct {
        sp_struct(ts, pos + 1)
    } else {
        sp_assign(ts, pos)
    }
}

/// The spec-level parse of a body: a brace-delimited statement list, or
/// a single statement in place of a block. Opaque so that mentions of it
/// stay small; `statement_or_block` reveals it once.
#[verifier::opaque]
pub open spec fn sp_sob(ts: Seq<Token>, pos: int) -> Option<(StmtModel, int)>
    decreases ts.len() - pos, 14int when 0 <= pos <= ts.len()
{
    if kind_at(ts, pos) == TokenType::LeftBrace {
        sp_block(ts, pos)
    } else {
        sp_statement(ts, pos)
    }
}

/// The spec-level parse of a brace-delimited statement list.
pub open spec fn sp_block(ts: Seq<Token>, pos: int) -> Option<(StmtModel, int)>
    decreases ts.len() - pos, 13int when 0 <= pos <= ts.len()
{
    if kind_at(ts, pos) == TokenType::LeftBrace {
        match sp_block_rest(ts, pos + 1) {
            Some((ss, p)) => Some((StmtModel::Block(ss), p)),
            None => None,
        }
    } else {
        None
    }
}

/// The spec-level parse of the statements up to a closing brace.
pub open spec fn sp_block_rest(ts: Seq<Token>, pos: int) -> Option<(Seq<StmtModel>, int)>
    decreases ts.len() - pos, 15int when 0 <= pos <= ts.len()
{
    if pos >= ts.len() {
        None
    } else if kind_at(ts, pos) == TokenType::RightBrace {
        Some((Seq::<StmtModel>::empty(), pos + 1))
    } else {
        match sp_statement(ts, pos) {
            Some((st, p)) => match sp_block_rest(ts, clamp_pos(pos + 1, ts.len() as int, p)) {
                Some((rest, pe)) => Some((seq![st] + rest, pe)),
                None => None,
            },
            None => None,
        }
    }
}

/// The spec-level parse of the top-level statements up to the
/// end-of-stream sentinel.
pub open spec fn sp_stmts(ts: Seq<Token>, pos: int) -> Option<Seq<StmtModel>>
    decreases ts.len() - pos, 16int when 0 <= pos <= ts.len()
{
    if kind_at(ts, pos) == TokenType::Eof {
        Some(Seq::<StmtModel>::empty())
    } else {
        match sp_statement(ts, pos) {
            Some((st, p)) => match sp_stmts(ts, clamp_pos(pos + 1, ts.len() as int, p)) {
                Some(rest) => Some(seq![st] + rest),
                None => None,
            },
            None => None,
        }
    }
}

/// The spec-level parse of a whole token sequence: the single root
/// block, holding the top-level statements in source order, or nothing
/// where the parse fails.
pub open spec fn sp_parse(ts: Seq<Token>) -> Option<StmtModel> {
    match sp_stmts(ts, 0) {
        Some(ss) => Some(StmtModel::Block(ss)),
        None => None,
    }
}

impl Parser {
    /// Parses the whole token sequence into the single root block: one
    /// statement after another until the end-of-stream sentinel. On
    /// success the entire sequence was consumed and the result is always
    /// a block statement.
    #[verifier::rlimit(100)]
    #[verifier::spinoff_prover]
    pub fn parse(&mut self) -> (r: Result<Stmt, TranslateError>)
        requires
            tokens_wf(old(self).tokens@),
            old(self).pos <= old(self).tokens@.len(),
        ensures
            final(self).tokens == old(self).tokens,
            old(self).pos <= final(self).pos <= final(self).tokens@.len(),
            r matches Ok(root) ==> root is Block && final(self).pos == final(self).tokens@.len(),
            r matches Ok(root) ==> (sp_stmts(old(self).tokens@, old(self).pos as int)
                matches Some(ms) && stmt_model(root) == StmtModel::Block(ms)),
            r is Err ==> sp_stmts(old(self).tokens@, old(self).pos as int) is None,
            r matches Err(e) ==> e is Parse,
        decreases old(self).tokens@.len() - old(self).pos, 20int,
    {
        let ghost entry = old(self).pos as int;
        proof {
            lemma_stmts_start(self.tokens@, entry);
        }
        let mut stmts: Vec<Stmt> = Vec::new();
        loop
            invariant
                tokens_wf(self.tokens@),
                self.tokens == old(self).tokens,
                entry == old(self).pos,
                old(self).pos <= self.pos <= self.tokens@.len(),
                stmts_continues(
                    self.tokens@,
                    entry,
                    stmts_model(stmts, stmts@.len() as int),
                    self.pos as int,
                ),
            decreases self.tokens@.len() - self.pos,
        {
            let ghost q = self.pos as int;
            let ghost prev = stmts;
            if self.check(TokenType::Eof) {
                // the sentinel is last, so the cursor now rests at the end
                proof {
                    assert(self.pos == self.tokens@.len());
                    assert(sp_stmts(self.tokens@, q) == Some(Seq::<StmtModel>::empty()));
                    assert(stmts_model(stmts, stmts@.len() as int) + Seq::<StmtModel>::empty()
                        =~= stmts_model(stmts, stmts@.len() as int));
                }
                return Ok(Stmt::Block(stmts));
            }
            let s = match self.statement() {
                Ok(s) => s,
                Err(e) => {
                    proof {
                        assert(sp_stmts(self.tokens@, q) is None);
                    }
                    return Err(e);
                },
            };
            stmts.push(s);
            proof {
                let sm = stmt_model(s);
                assert(sp_stmts(self.tokens@, q) == stmts_cons(
                    sm,
                    sp_stmts(self.tokens@, self.pos as int),
                ));
                lemma_stmts_step(
                    self.tokens@,
                    entry,
                    stmts_model(prev, prev@.len() as int),
                    q,
                    sm,
                    self.pos as int,
                );
                lemma_stmts_model_push(prev, stmts, s, prev@.len() as int);
            }
        }
    }

    /// Parses one brace-delimited statement list.
    #[verifier::rlimit(100)]
    #[verifier::spinoff_prover]
    fn parse_block(&mut self) -> (r: Result<Stmt, TranslateError>)
        requires
            tokens_wf(old(self).tokens@),
            old(self).pos <= old(self).tokens@.len(),
        ensures
            final(self).tokens == old(self).tokens,
            old(self).pos <= final(self).pos <= final(self).tokens@.len(),
            r is Ok ==> final(self).pos > old(self).pos,
            r matches Ok(b) ==> (sp_block(old(self).tokens@, old(self).pos as int)
                matches Some(m) && stmt_model(b) == m.0 && final(self).pos == m.1),
            r is Err ==> sp_block(old(self).tokens@, old(self).pos as int) is None,
            r matches Err(e) ==> e is Parse,
        decreases old(self).tokens@.len() - old(self).pos, 13int,
    {
        let ghost entry0 = old(self).pos as int;
        let mut stmts: Vec<Stmt> = Vec::new();
        self.consume(TokenType::LeftBrace)?;
        let ghost entry = self.pos as int;
        proof {
            lemma_blockrest_start(self.tokens@, entry);
        }
        loop
            invariant
                tokens_wf(self.tokens@),
                self.tokens == old(self).tokens,
                entry0 == old(self).pos,
                entry == old(self).pos + 1,
                kind_at(self.tokens@, entry0) == TokenType::LeftBrace,
                old(self).pos < self.pos <= self.tokens@.len(),
                blockrest_continues(
                    self.tokens@,
                    entry,
                    stmts_model(stmts, stmts@.len() as int),
                    self.pos as int,
                ),
            decreases self.tokens@.len() - self.pos,
        {
            let ghost q = self.pos as int;
            let ghost prev = stmts;
            if self.check(TokenType::RightBrace) {
                proof {
                    assert(sp_block_rest(self.tokens@, q) == Some((
                        Seq::<StmtModel>::empty(),
                        q + 1,
                    )));
                    assert(stmts_model(stmts, stmts@.len() as int) + Seq::<StmtModel>::empty()
                        =~= stmts_model(stmts, stmts@.len() as int));
                }
                return Ok(Stmt::Block(stmts));
            }
            let s = match self.statement() {
                Ok(s) => s,
                Err(e) => {
                    proof {
                        assert(sp_block_rest(self.tokens@, q) is None);
                    }
                    return Err(e);
                },
            };
            stmts.push(s);
            proof {
                let sm = stmt_model(s);
                assert(sp_block_rest(self.tokens@, q) == blockrest_cons(
                    sm,
                    sp_block_rest(self.tokens@, self.pos as int),
                ));
                lemma_blockrest_step(
                    self.tokens@,
                    entry,
                    stmts_model(prev, prev@.len() as int),
                    q,
                    sm,
                    self.pos as int,
                );
                lemma_stmts_model_push(prev, stmts, s, prev@.len() as int);
            }
        }
    }

    /// Parses a body: either a brace-delimited statement list or a single
    /// statement accepted in place of a block.
    #[verifier::rlimit(100)]
    #[verifier::spinoff_prover]
    fn statement_or_block(&mut self) -> (r: Result<Stmt, TranslateError>)
        requires
            tokens_wf(old(self).tokens@),
            old(self).pos <= old(self).tokens@.len(),
        ensures
            final(self).tokens == old(self).tokens,
            old(self).pos <= final(self).pos <= final(self).tokens@.len(),
            r is Ok ==> final(self).pos > old(self).pos,
            r matches Ok(b) ==> (sp_sob(old(self).tokens@, old(self).pos as int) matches Some(m)
                && stmt_model(b) == m.0 && final(self).pos == m.1),
            r is Err ==> sp_sob(old(self).tokens@, old(self).pos as int) is None,
            r matches Err(e) ==> e is Parse,
        decreases old(self).tokens@.len() - old(self).pos, 14int,
    {
        proof {
            reveal(sp_sob);
        }
        if self.peek_kind(0) == TokenType::LeftBrace {
            return self.parse_block();
        }
        self.statement()
    }

    /// Dispatches one statement on its leading token(s): a conditional, a
    /// variable definition, a while loop, a bare call, a function
    /// definition, a return, a module use, a struct declaration, or —
    /// failing all of those — a plain assignment. The statement form is
    /// pinned by the leading tokens.
    #[verifier::rlimit(100)]
    #[verifier::spinoff_prover]
    fn statement(&mut self) -> (r: Result<Stmt, TranslateError>)
        requires
            tokens_wf(old(self).tokens@),
            old(self).pos <= old(self).tokens@.len(),
        ensures
            final(self).tokens == old(self).tokens,
            old(self).pos <= final(self).pos <= final(self).tokens@.len(),
            r is Ok ==> final(self).pos > old(self).pos,
            r matches Ok(st) ==> {
                let ts = old(self).tokens@;
                let p = old(self).pos as int;
                &&& (kind_at(ts, p) == TokenType::If ==> st is If)
                &&& (kind_at(ts, p) == TokenType::Var ==> st is VarDef)
                &&& (kind_at(ts, p) == TokenType::While ==> st is While)
                &&& (kind_at(ts, p) == TokenType::Func ==> st is FunctionDef)
                &&& (kind_at(ts, p) == TokenType::Return ==> st is Return)
                &&& (kind_at(ts, p) == TokenType::Use ==> st is Use)
                &&& (kind_at(ts, p) == TokenType::Struct ==> st is Struct)
                &&& (kind_at(ts, p) == TokenType::Word && kind_at(ts, p + 1)
                    == TokenType::LeftParen ==> st is Function)
                &&& (kind_at(ts, p) == TokenType::Word && kind_at(ts, p + 1) != TokenType::LeftParen
                    ==> st is Assign)
            },
            r matches Ok(st) ==> (sp_statement(old(self).tokens@, old(self).pos as int)
                matches Some(m) && stmt_model(st) == m.0 && final(self).pos == m.1),
            r is Err ==> sp_statement(old(self).tokens@, old(self).pos as int) is None,
            r matches Err(e) ==> e is Parse,
        decreases old(self).tokens@.len() - old(self).pos, 12int,
    {
        proof {
            reveal(sp_statement);
        }
        if self.check(TokenType::If) {
            return self.if_else();
        }
        if self.check(TokenType::Var) {
            return self.var_def();
        }
        if self.check(TokenType::While) {
            return self.while_();
        }
        if self.peek_kind(0) == TokenType::Word && self.peek_kind(1) == TokenType::LeftParen {
            let call = self.function()?;
            return Ok(Stmt::Function(Box::new(call)));
        }
        if self.check(TokenType::Func) {
            return self.function_define();
        }
        if self.check(TokenType::Return) {
            let e = self.expression()?;
            return Ok(Stmt::Return(Box::new(e)));
        }
        if self.check(TokenType::Use) {
            return self.use_();
        }
        if self.check(TokenType::Struct) {
            return self.struct_();
        }
        self.assign()
    }

    /// Parses `struct Name { fields }` after the `struct` keyword.
    #[verifier::rlimit(100)]
    #[verifier::spinoff_prover]
    fn struct_(&mut self) -> (r: Result<Stmt, TranslateError>)
        requires
            tokens_wf(old(self).tokens@),
            old(self).pos <= old(self).tokens@.len(),
        ensures
            final(self).tokens == old(self).tokens,
            old(self).pos <= final(self).pos <= final(self).tokens@.len(),
            r is Ok ==> final(self).pos > old(self).pos,
            r matches Ok(st) ==> (sp_struct(old(self).tokens@, old(self).pos as int)
                matches Some(m) && stmt_model(st) == m.0 && final(self).pos == m.1),
            r is Err ==> sp_struct(old(self).tokens@, old(self).pos as int) is None,
            r matches Err(e) ==> e is Parse,
        decreases old(self).tokens@.len() - old(self).pos, 11int,
    {
        let name = self.consume_word()?;
        let fields = self.get_typed_arguments(TokenType::LeftBrace, TokenType::RightBrace)?;
        Ok(Stmt::Struct(name, fields))
    }

    /// Parses `use name` after the `use` keyword.
    #[verifier::rlimit(100)]
    #[verifier::spinoff_prover]
    fn use_(&mut self) -> (r: Result<Stmt, TranslateError>)
        requires
            tokens_wf(old(self).tokens@),
            old(self).pos <= old(self).tokens@.len(),
        ensures
            final(self).tokens == old(self).tokens,
            old(self).pos <= final(self).pos <= final(self).tokens@.len(),
            r is Ok ==> final(self).pos > old(self).pos,
            r matches Ok(st) ==> (sp_use(old(self).tokens@, old(self).pos as int)
                matches Some(m) && stmt_model(st) == m.0 && final(self).pos == m.1),
            r is Err ==> sp_use(old(self).tokens@, old(self).pos as int) is None,
            r matches Err(e) ==> e is Parse,
        decreases old(self).tokens@.len() - old(self).pos, 11int,
    {
        let module = self.consume_word()?;
        Ok(Stmt::Use(module))
    }

    /// Parses `func name(params): type body` after the `func` keyword.
    #[verifier::rlimit(100)]
    #[verifier::spinoff_prover]
    fn function_define(&mut self) -> (r: Result<Stmt, TranslateError>)
        requires
            tokens_wf(old(self).tokens@),
            old(self).pos <= old(self).tokens@.len(),
        ensures
            final(self).tokens == old(self).tokens,
            old(self).pos <= final(self).pos <= final(self).tokens@.len(),
            r is Ok ==> final(self).pos > old(self).pos,
            r matches Ok(st) ==> st is FunctionDef,
            r matches Ok(st) ==> (sp_funcdef(old(self).tokens@, old(self).pos as int)
                matches Some(m) && stmt_model(st) == m.0 && final(self).pos == m.1),
            r is Err ==> sp_funcdef(old(self).tokens@, old(self).pos as int) is None,
            r matches Err(e) ==> e is Parse,
        decreases old(self).tokens@.len() - old(self).pos, 11int,
    {
        let name = self.consume_word()?;
        let params = self.get_typed_arguments(TokenType::LeftParen, TokenType::RightParen)?;
        let return_value = self.parse_value_type()?;
        let body = self.statement_or_block()?;
        Ok(Stmt::FunctionDef(name, params, Box::new(body), return_value))
    }

    /// Parses a delimited `name : type` list; an interior or trailing
    /// comma is consumed when present but never demanded.
    fn get_typed_arguments(&mut self, left: TokenType, right: TokenType) -> (r: Result<
        Vec<TypedArgument>,
        TranslateError,
    >)
        requires
            tokens_wf(old(self).tokens@),
            old(self).pos <= old(self).tokens@.len(),
            left != TokenType::Eof,
            right != TokenType::Eof,
        ensures
            final(self).tokens == old(self).tokens,
            old(self).pos <= final(self).pos <= final(self).tokens@.len(),
            r is Ok ==> final(self).pos > old(self).pos,
            r matches Ok(params) ==> {
                &&& kind_at(old(self).tokens@, old(self).pos as int) == left
                &&& (typed_args_scan(old(self).tokens@, old(self).pos + 1, right) matches Some(sc)
                    && args_model(params@) == sc.0 && final(self).pos == sc.1)
            },
            r matches Err(e) ==> e is Parse && (kind_at(old(self).tokens@, old(self).pos as int)
                != left || typed_args_scan(old(self).tokens@, old(self).pos + 1, right) is None),
    {
        self.consume(left)?;
        let ghost entry = self.pos as int;
        proof {
            lemma_targs_start(self.tokens@, right, entry);
        }
        let mut params: Vec<TypedArgument> = Vec::new();
        loop
            invariant
                tokens_wf(self.tokens@),
                self.tokens == old(self).tokens,
                old(self).pos < self.pos <= self.tokens@.len(),
                entry == old(self).pos + 1,
                kind_at(old(self).tokens@, old(self).pos as int) == left,
                right != TokenType::Eof,
                targs_continues(self.tokens@, right, entry, args_model(params@), self.pos as int),
            decreases self.tokens@.len() - self.pos,
        {
            let ghost q = self.pos as int;
            let ghost prev = params@;
            if self.check(right) {
                proof {
                    assert(typed_args_scan(self.tokens@, q, right) == Some((
                        Seq::<ArgModel>::empty(),
                        q + 1,
                    )));
                    assert(args_model(params@) + Seq::<ArgModel>::empty() =~= args_model(
                        params@,
                    ));
                }
                return Ok(params);
            }
            let name = self.consume_word()?;
            let value_type = self.parse_value_type()?;
            params.push(TypedArgument { name, typ: value_type });
            // an interior or trailing comma is consumed when present
            let _ = self.check(TokenType::Comma);
            proof {
                let am = arg_model(TypedArgument { name: params@.last().name, typ: value_type });
                assert(typed_args_scan(self.tokens@, q, right) == targs_cons(
                    am,
                    typed_args_scan(self.tokens@, self.pos as int, right),
                ));
                lemma_targs_step(
                    self.tokens@,
                    right,
                    entry,
                    args_model(prev),
                    q,
                    am,
                    self.pos as int,
                );
                lemma_args_push(prev, params@.last());
            }
        }
    }

    /// Parses `: typename`, where the type name must be exactly `number`,
    /// `string` or `unit`; any other name is a fatal parse error. On
    /// success the declared type is exactly the one the word names.
    fn parse_value_type(&mut self) -> (r: Result<ValueType, TranslateError>)
        requires
            tokens_wf(old(self).tokens@),
            old(self).pos <= old(self).tokens@.len(),
        ensures
            final(self).tokens == old(self).tokens,
            old(self).pos <= final(self).pos <= final(self).tokens@.len(),
            r is Ok ==> final(self).pos > old(self).pos,
            r matches Ok(vt) ==> {
                let ts = old(self).tokens@;
                let p = old(self).pos as int;
                &&& kind_at(ts, p) == TokenType::Colon
                &&& kind_at(ts, p + 1) == TokenType::Word
                &&& final(self).pos == old(self).pos + 2
                &&& type_of_word(word_at(ts, p + 1)) == Some(vt)
            },
            r matches Err(e) ==> e is Parse && {
                let ts = old(self).tokens@;
                let p = old(self).pos as int;
                !(kind_at(ts, p) == TokenType::Colon && kind_at(ts, p + 1) == TokenType::Word
                    && type_of_word(word_at(ts, p + 1)) is Some)
            },
    {
        let span = self.current_span();
        self.consume(TokenType::Colon)?;
        let type_string = self.consume_word()?;
        if str_eq(type_string.as_str(), "number") {
            Ok(ValueType::Number)
        } else if str_eq(type_string.as_str(), "string") {
            Ok(ValueType::String)
        } else if str_eq(type_string.as_str(), "unit") {
            Ok(ValueType::Unit)
        } else {
            Err(
                TranslateError::Parse {
                    kind: ParseErrorKind::InvalidTypeName,
                    start: span.0,
                    end: span.1,
                },
            )
        }
    }

    /// Parses `while cond body` after the `while` keyword.
    #[verifier::rlimit(100)]
    #[verifier::spinoff_prover]
    fn while_(&mut self) -> (r: Result<Stmt, TranslateError>)
        requires
            tokens_wf(old(self).tokens@),
            old(self).pos <= old(self).tokens@.len(),
        ensures
            final(self).tokens == old(self).tokens,
            old(self).pos <= final(self).pos <= final(self).tokens@.len(),
            r is Ok ==> final(self).pos > old(self).pos,
            r matches Ok(st) ==> st is While,
            r matches Ok(st) ==> (sp_while(old(self).tokens@, old(self).pos as int)
                matches Some(m) && stmt_model(st) == m.0 && final(self).pos == m.1),
            r is Err ==> sp_while(old(self).tokens@, old(self).pos as int) is None,
            r matches Err(e) ==> e is Parse,
        decreases old(self).tokens@.len() - old(self).pos, 11int,
    {
        let cond = self.expression()?;
        let body = self.statement_or_block()?;
        Ok(Stmt::While(Box::new(cond), Box::new(body)))
    }

    /// Parses `if cond body [else body]` after the `if` keyword.
    #[verifier::rlimit(100)]
    #[verifier::spinoff_prover]
    fn if_else(&mut self) -> (r: Result<Stmt, TranslateError>)
        requires
            tokens_wf(old(self).tokens@),
            old(self).pos <= old(self).tokens@.len(),
        ensures
            final(self).tokens == old(self).tokens,
            old(self).pos <= final(self).pos <= final(self).tokens@.len(),
            r is Ok ==> final(self).pos > old(self).pos,
            r matches Ok(st) ==> st is If,
            r matches Ok(st) ==> (sp_if(old(self).tokens@, old(self).pos as int) matches Some(m)
                && stmt_model(st) == m.0 && final(self).pos == m.1),
            r is Err ==> sp_if(old(self).tokens@, old(self).pos as int) is None,
            r matches Err(e) ==> e is Parse,
        decreases old(self).tokens@.len() - old(self).pos, 11int,
    {
        let cond = self.expression()?;
        let body = self.statement_or_block()?;
        let mut else_body: Option<Stmt> = None;
        if self.check(TokenType::Else) {
            else_body = Some(self.statement_or_block()?);
        }
        Ok(Stmt::If(Box::new(cond), Box::new(body), Box::new(else_body)))
    }

    /// Parses a plain `name = expr` assignment; a bare name followed by
    /// anything else is a fatal parse error.
    #[verifier::rlimit(100)]
    #[verifier::spinoff_prover]
    fn assign(&mut self) -> (r: Result<Stmt, TranslateError>)
        requires
            tokens_wf(old(self).tokens@),
            old(self).pos <= old(self).tokens@.len(),
        ensures
            final(self).tokens == old(self).tokens,
            old(self).pos <= final(self).pos <= final(self).tokens@.len(),
            r is Ok ==> final(self).pos > old(self).pos,
            r matches Ok(st) ==> st is Assign,
            r matches Ok(st) ==> (sp_assign(old(self).tokens@, old(self).pos as int)
                matches Some(m) && stmt_model(st) == m.0 && final(self).pos == m.1),
            r is Err ==> sp_assign(old(self).tokens@, old(self).pos as int) is None,
            r matches Err(e) ==> e is Parse,
        decreases old(self).tokens@.len() - old(self).pos, 11int,
    {
        if self.peek_kind(0) == TokenType::Word && self.peek_kind(1) == TokenType::Eq {
            let name = self.consume_word()?;
            self.consume(TokenType::Eq)?;
            let e = self.expression()?;
            return Ok(Stmt::Assign(name, Box::new(e)));
        }
        let span = self.current_span();
        Err(
            TranslateError::Parse {
                kind: ParseErrorKind::InvalidAssignment,
                start: span.0,
                end: span.1,
            },
        )
    }

    /// Parses `name: type = expr` after the `var` keyword; any other
    /// shape is a fatal parse error.
    #[verifier::rlimit(100)]
    #[verifier::spinoff_prover]
    fn var_def(&mut self) -> (r: Result<Stmt, TranslateError>)
        requires
            tokens_wf(old(self).tokens@),
            old(self).pos <= old(self).tokens@.len(),
        ensures
            final(self).tokens == old(self).tokens,
            old(self).pos <= final(self).pos <= final(self).tokens@.len(),
            r is Ok ==> final(self).pos > old(self).pos,
            r matches Ok(st) ==> st is VarDef,
            r matches Ok(st) ==> (sp_vardef(old(self).tokens@, old(self).pos as int)
                matches Some(m) && stmt_model(st) == m.0 && final(self).pos == m.1),
            r is Err ==> sp_vardef(old(self).tokens@, old(self).pos as int) is None,
            r matches Err(e) ==> e is Parse,
        decreases old(self).tokens@.len() - old(self).pos, 11int,
    {
        if self.peek_kind(0) == TokenType::Word && self.peek_kind(1) == TokenType::Colon
            && self.peek_kind(2) == TokenType::Word && self.peek_kind(3) == TokenType::Eq {
            let name = self.consume_word()?;
            let value_type = self.parse_value_type()?;
            self.consume(TokenType::Eq)?;
            let e = self.expression()?;
            return Ok(Stmt::VarDef(name, Box::new(e), value_type));
        }
        let span = self.current_span();
        Err(
            TranslateError::Parse {
                kind: ParseErrorKind::InvalidVarDefinition,
                start: span.0,
                end: span.1,
            },
        )
    }

}

/// Prepends one expression to an argument scan's outcome; a failure
/// stays a failure.
pub open spec fn callargs_cons(em: ExprModel, rest: Option<(Seq<ExprModel>, int)>) -> Option<
    (Seq<ExprModel>, int),
> {
    match rest {
        Some((args, pe)) => Some((seq![em] + args, pe)),
        None => None,
    }
}

/// The arguments parsed so far plus the scan still to come make up the
/// whole argument scan.
pub open spec fn callargs_continues(
    ts: Seq<Token>,
    entry: int,
    done: Seq<ExprModel>,
    pos: int,
) -> bool {
    match sp_call_args(ts, pos) {
        Some((rest, pe)) => sp_call_args(ts, entry) == Some((done + rest, pe)),
        None => sp_call_args(ts, entry) is None,
    }
}

proof fn lemma_callargs_start(ts: Seq<Token>, entry: int)
    ensures
        callargs_continues(ts, entry, Seq::<ExprModel>::empty(), entry),
{
    if sp_call_args(ts, entry) is Some {
        let rest = sp_call_args(ts, entry)->Some_0.0;
        assert(Seq::<ExprModel>::empty() + rest =~= rest);
    }
}

/// Parsing one more argument carries the composition forward.
proof fn lemma_callargs_step(
    ts: Seq<Token>,
    entry: int,
    done: Seq<ExprModel>,
    q: int,
    em: ExprModel,
    next: int,
)
    requires
        callargs_continues(ts, entry, done, q),
        sp_call_args(ts, q) == callargs_cons(em, sp_call_args(ts, next)),
    ensures
        callargs_continues(ts, entry, done.push(em), next),
{
    if sp_call_args(ts, next) is Some {
        let rest2 = sp_call_args(ts, next)->Some_0.0;
        assert(done + (seq![em] + rest2) =~= done.push(em) + rest2);
    }
}

/// A list's expression models are stable under appending one more.
proof fn lemma_exprs_model_push(a: Vec<Expr>, b: Vec<Expr>, e: Expr, k: int)
    requires
        0 <= k <= a.len(),
        b@ == a@.push(e),
    ensures
        exprs_model(b, k) == exprs_model(a, k),
    decreases k,
{
    if k > 0 {
        lemma_exprs_model_push(a, b, e, k - 1);
        assert(b[k - 1] == a[k - 1]);
    }
}

/// Prepends one statement to a block scan's outcome; a failure stays a
/// failure.
pub open spec fn blockrest_cons(sm: StmtModel, rest: Option<(Seq<StmtModel>, int)>) -> Option<
    (Seq<StmtModel>, int),
> {
    match rest {
        Some((ss, pe)) => Some((seq![sm] + ss, pe)),
        None => None,
    }
}

/// The statements parsed so far plus the scan still to come make up the
/// whole block scan.
pub open spec fn blockrest_continues(
    ts: Seq<Token>,
    entry: int,
    done: Seq<StmtModel>,
    pos: int,
) -> bool {
    match sp_block_rest(ts, pos) {
        Some((rest, pe)) => sp_block_rest(ts, entry) == Some((done + rest, pe)),
        None => sp_block_rest(ts, entry) is None,
    }
}

proof fn lemma_blockrest_start(ts: Seq<Token>, entry: int)
    ensures
        blockrest_continues(ts, entry, Seq::<StmtModel>::empty(), entry),
{
    if sp_block_rest(ts, entry) is Some {
        let rest = sp_block_rest(ts, entry)->Some_0.0;
        assert(Seq::<StmtModel>::empty() + rest =~= rest);
    }
}

proof fn lemma_blockrest_step(
    ts: Seq<Token>,
    entry: int,
    done: Seq<StmtModel>,
    q: int,
    sm: StmtModel,
    next: int,
)
    requires
        blockrest_continues(ts, entry, done, q),
        sp_block_rest(ts, q) == blockrest_cons(sm, sp_block_rest(ts, next)),
    ensures
        blockrest_continues(ts, entry, done.push(sm), next),
{
    if sp_block_rest(ts, next) is Some {
        let rest2 = sp_block_rest(ts, next)->Some_0.0;
        assert(done + (seq![sm] + rest2) =~= done.push(sm) + rest2);
    }
}

/// Prepends one statement to the top-level scan's outcome; a failure
/// stays a failure.
pub open spec fn stmts_cons(sm: StmtModel, rest: Option<Seq<StmtModel>>) -> Option<Seq<StmtModel>> {
    match rest {
        Some(ss) => Some(seq![sm] + ss),
        None => None,
    }
}

/// The top-level statements parsed so far plus the scan still to come
/// make up the whole top-level scan.
pub open spec fn stmts_continues(
    ts: Seq<Token>,
    entry: int,
    done: Seq<StmtModel>,
    pos: int,
) -> bool {
    match sp_stmts(ts, pos) {
        Some(rest) => sp_stmts(ts, entry) == Some(done + rest),
        None => sp_stmts(ts, entry) is None,
    }
}

proof fn lemma_stmts_start(ts: Seq<Token>, entry: int)
    ensures
        stmts_continues(ts, entry, Seq::<StmtModel>::empty(), entry),
{
    if sp_stmts(ts, entry) is Some {
        let rest = sp_stmts(ts, entry)->Some_0;
        assert(Seq::<StmtModel>::empty() + rest =~= rest);
    }
}

proof fn lemma_stmts_step(
    ts: Seq<Token>,
    entry: int,
    done: Seq<StmtModel>,
    q: int,
    sm: StmtModel,
    next: int,
)
    requires
        stmts_continues(ts, entry, done, q),
        sp_stmts(ts, q) == stmts_cons(sm, sp_stmts(ts, next)),
    ensures
        stmts_continues(ts, entry, done.push(sm), next),
{
    if sp_stmts(ts, next) is Some {
        let rest2 = sp_stmts(ts, next)->Some_0;
        assert(done + (seq![sm] + rest2) =~= done.push(sm) + rest2);
    }
}

/// A list's statement models are stable under appending one more.
proof fn lemma_stmts_model_push(a: Vec<Stmt>, b: Vec<Stmt>, s: Stmt, k: int)
    requires
        0 <= k <= a.len(),
        b@ == a@.push(s),
    ensures
        stmts_model(b, k) == stmts_model(a, k),
    decreases k,
{
    if k > 0 {
        lemma_stmts_model_push(a, b, s, k - 1);
        assert(b[k - 1] == a[k - 1]);
    }
}

impl Parser {
    /// Parses a call: a name, then a parenthesized, comma-separated
    /// argument expression list.
    #[verifier::rlimit(100)]
    #[verifier::spinoff_prover]
    fn function(&mut self) -> (r: Result<Expr, TranslateError>)
        requires
            tokens_wf(old(self).tokens@),
            old(self).pos <= old(self).tokens@.len(),
        ensures
            final(self).tokens == old(self).tokens,
            old(self).pos <= final(self).pos <= final(self).tokens@.len(),
            r is Ok ==> final(self).pos > old(self).pos,
            r matches Ok(e) ==> (sp_call(old(self).tokens@, old(self).pos as int) matches Some(m)
                && expr_model(e) == m.0 && final(self).pos == m.1),
            r is Err ==> sp_call(old(self).tokens@, old(self).pos as int) is None,
            r matches Err(e) ==> e is Parse,
        decreases old(self).tokens@.len() - old(self).pos, 0int,
    {
        let ghost entry0 = old(self).pos as int;
        let name = self.consume_word()?;
        self.consume(TokenType::LeftParen)?;
        let ghost entry = self.pos as int;
        proof {
            lemma_callargs_start(self.tokens@, entry);
        }
        let mut params: Vec<Expr> = Vec::new();
        loop
            invariant
                tokens_wf(self.tokens@),
                self.tokens == old(self).tokens,
                entry0 == old(self).pos,
                entry == old(self).pos + 2,
                kind_at(self.tokens@, entry0) == TokenType::Word,
                kind_at(self.tokens@, entry0 + 1) == TokenType::LeftParen,
                old(self).pos < self.pos <= self.tokens@.len(),
                entry <= self.pos,
                (old(self).tokens@[old(self).pos as int].lexeme matches Lexeme::WordLexeme(w)
                    && name@ == w@),
                callargs_continues(
                    self.tokens@,
                    entry,
                    exprs_model(params, params@.len() as int),
                    self.pos as int,
                ),
            decreases self.tokens@.len() - self.pos,
        {
            let ghost q = self.pos as int;
            let ghost prev = params;
            if self.check(TokenType::RightParen) {
                proof {
                    assert(sp_call_args(self.tokens@, q) == Some((
                        Seq::<ExprModel>::empty(),
                        q + 1,
                    )));
                    assert(exprs_model(params, params@.len() as int) + Seq::<ExprModel>::empty()
                        =~= exprs_model(params, params@.len() as int));
                }
                return Ok(Expr::Functional(name, params));
            }
            let e = match self.expression() {
                Ok(e) => e,
                Err(err) => {
                    proof {
                        assert(sp_call_args(self.tokens@, q) is None);
                    }
                    return Err(err);
                },
            };
            params.push(e);
            // an interior or trailing comma is consumed when present
            let _ = self.check(TokenType::Comma);
            proof {
                let em = expr_model(e);
                assert(sp_call_args(self.tokens@, q) == callargs_cons(
                    em,
                    sp_call_args(self.tokens@, self.pos as int),
                ));
                lemma_callargs_step(
                    self.tokens@,
                    entry,
                    exprs_model(prev, prev@.len() as int),
                    q,
                    em,
                    self.pos as int,
                );
                lemma_exprs_model_push(prev, params, e, prev@.len() as int);
            }
        }
    }

    /// Parses one expression, at the lowest precedence level.
    fn expression(&mut self) -> (r: Result<Expr, TranslateError>)
        requires
            tokens_wf(old(self).tokens@),
            old(self).pos <= old(self).tokens@.len(),
        ensures
            final(self).tokens == old(self).tokens,
            old(self).pos <= final(self).pos <= final(self).tokens@.len(),
            r is Ok ==> final(self).pos > old(self).pos,
            r matches Ok(e) ==> (sp_expression(old(self).tokens@, old(self).pos as int)
                matches Some(m) && expr_model(e) == m.0 && final(self).pos == m.1),
            r is Err ==> sp_expression(old(self).tokens@, old(self).pos as int) is None,
            r matches Err(e) ==> e is Parse,
        decreases old(self).tokens@.len() - old(self).pos, 9int,
    {
        proof {
            reveal(sp_expression);
        }
        self.logical_or()
    }

    /// Parses a left-associative `||` chain, iteratively.
    #[verifier::rlimit(100)]
    #[verifier::spinoff_prover]
fn logical_or(&mut self) -> (r: Result<Expr, TranslateError>)
        requires
            tokens_wf(old(self).tokens@),
            old(self).pos <= old(self).tokens@.len(),
        ensures
            final(self).tokens == old(self).tokens,
            old(self).pos <= final(self).pos <= final(self).tokens@.len(),
            r is Ok ==> final(self).pos > old(self).pos,
            r matches Ok(e) ==> (sp_or(old(self).tokens@, old(self).pos as int) matches Some(m)
                && expr_model(e) == m.0 && final(self).pos == m.1),
            r is Err ==> sp_or(old(self).tokens@, old(self).pos as int) is None,
            r matches Err(e) ==> e is Parse,
        decreases old(self).tokens@.len() - old(self).pos, 8int,
    {
        let ghost entry = old(self).pos as int;
        let mut result = self.logical_and()?;
        proof {
            assert(sp_or(self.tokens@, entry) == sp_or_rest(
                self.tokens@,
                self.pos as int,
                expr_model(result),
            ));
        }
        loop
            invariant
                tokens_wf(self.tokens@),
                self.tokens == old(self).tokens,
                entry == old(self).pos,
                old(self).pos < self.pos <= self.tokens@.len(),
                sp_or(self.tokens@, entry) == sp_or_rest(
                    self.tokens@,
                    self.pos as int,
                    expr_model(result),
                ),
            decreases self.tokens@.len() - self.pos,
        {
            let ghost q = self.pos as int;
            let ghost m0 = expr_model(result);
            if self.check(TokenType::OrOr) {
                let rhs = match self.logical_and() {
                    Ok(rhs) => rhs,
                    Err(e) => {
                        proof {
                            assert(sp_or_rest(self.tokens@, q, m0) is None);
                        }
                        return Err(e);
                    },
                };
                result = Expr::Condition("||".to_owned(), Box::new(result), Box::new(rhs));
                proof {
                    assert(sp_or_rest(self.tokens@, q, m0) == sp_or_rest(
                        self.tokens@,
                        self.pos as int,
                        expr_model(result),
                    ));
                }
            } else {
                proof {
                    assert(sp_or_rest(self.tokens@, q, m0) == Some((m0, q)));
                }
                return Ok(result);
            }
        }
    }

    /// Parses a left-associative `&&` chain, iteratively.
    #[verifier::rlimit(100)]
    #[verifier::spinoff_prover]
fn logical_and(&mut self) -> (r: Result<Expr, TranslateError>)
        requires
            tokens_wf(old(self).tokens@),
            old(self).pos <= old(self).tokens@.len(),
        ensures
            final(self).tokens == old(self).tokens,
            old(self).pos <= final(self).pos <= final(self).tokens@.len(),
            r is Ok ==> final(self).pos > old(self).pos,
            r matches Ok(e) ==> (sp_and(old(self).tokens@, old(self).pos as int) matches Some(m)
                && expr_model(e) == m.0 && final(self).pos == m.1),
            r is Err ==> sp_and(old(self).tokens@, old(self).pos as int) is None,
            r matches Err(e) ==> e is Parse,
        decreases old(self).tokens@.len() - old(self).pos, 7int,
    {
        let ghost entry = old(self).pos as int;
        let mut result = self.equal()?;
        proof {
            assert(sp_and(self.tokens@, entry) == sp_and_rest(
                self.tokens@,
                self.pos as int,
                expr_model(result),
            ));
        }
        loop
            invariant
                tokens_wf(self.tokens@),
                self.tokens == old(self).tokens,
                entry == old(self).pos,
                old(self).pos < self.pos <= self.tokens@.len(),
                sp_and(self.tokens@, entry) == sp_and_rest(
                    self.tokens@,
                    self.pos as int,
                    expr_model(result),
                ),
            decreases self.tokens@.len() - self.pos,
        {
            let ghost q = self.pos as int;
            let ghost m0 = expr_model(result);
            if self.check(TokenType::AndAnd) {
                let rhs = match self.equal() {
                    Ok(rhs) => rhs,
                    Err(e) => {
                        proof {
                            assert(sp_and_rest(self.tokens@, q, m0) is None);
                        }
                        return Err(e);
                    },
                };
                result = Expr::Condition("&&".to_owned(), Box::new(result), Box::new(rhs));
                proof {
                    assert(sp_and_rest(self.tokens@, q, m0) == sp_and_rest(
                        self.tokens@,
                        self.pos as int,
                        expr_model(result),
                    ));
                }
            } else {
                proof {
                    assert(sp_and_rest(self.tokens@, q, m0) == Some((m0, q)));
                }
                return Ok(result);
            }
        }
    }

    /// Parses a left-associative equality chain (`==`, `!=`), iteratively.
    #[verifier::rlimit(100)]
    #[verifier::spinoff_prover]
fn equal(&mut self) -> (r: Result<Expr, TranslateError>)
        requires
            tokens_wf(old(self).tokens@),
            old(self).pos <= old(self).tokens@.len(),
        ensures
            final(self).tokens == old(self).tokens,
            old(self).pos <= final(self).pos <= final(self).tokens@.len(),
            r is Ok ==> final(self).pos > old(self).pos,
            r matches Ok(e) ==> (sp_equal(old(self).tokens@, old(self).pos as int) matches Some(m)
                && expr_model(e) == m.0 && final(self).pos == m.1),
            r is Err ==> sp_equal(old(self).tokens@, old(self).pos as int) is None,
            r matches Err(e) ==> e is Parse,
        decreases old(self).tokens@.len() - old(self).pos, 6int,
    {
        let ghost entry = old(self).pos as int;
        let mut result = self.compare()?;
        proof {
            assert(sp_equal(self.tokens@, entry) == sp_equal_rest(
                self.tokens@,
                self.pos as int,
                expr_model(result),
            ));
        }
        loop
            invariant
                tokens_wf(self.tokens@),
                self.tokens == old(self).tokens,
                entry == old(self).pos,
                old(self).pos < self.pos <= self.tokens@.len(),
                sp_equal(self.tokens@, entry) == sp_equal_rest(
                    self.tokens@,
                    self.pos as int,
                    expr_model(result),
                ),
            decreases self.tokens@.len() - self.pos,
        {
            let ghost q = self.pos as int;
            let ghost m0 = expr_model(result);
            if self.check(TokenType::EqEq) {
                let rhs = match self.compare() {
                    Ok(rhs) => rhs,
                    Err(e) => {
                        proof {
                            assert(sp_equal_rest(self.tokens@, q, m0) is None);
                        }
                        return Err(e);
                    },
                };
                result = Expr::Condition("==".to_owned(), Box::new(result), Box::new(rhs));
                proof {
                    assert(sp_equal_rest(self.tokens@, q, m0) == sp_equal_rest(
                        self.tokens@,
                        self.pos as int,
                        expr_model(result),
                    ));
                }
            } else if self.check(TokenType::NoEq) {
                let rhs = match self.compare() {
                    Ok(rhs) => rhs,
                    Err(e) => {
                        proof {
                            assert(sp_equal_rest(self.tokens@, q, m0) is None);
                        }
                        return Err(e);
                    },
                };
                result = Expr::Condition("!=".to_owned(), Box::new(result), Box::new(rhs));
                proof {
                    assert(sp_equal_rest(self.tokens@, q, m0) == sp_equal_rest(
                        self.tokens@,
                        self.pos as int,
                        expr_model(result),
                    ));
                }
            } else {
                proof {
                    assert(sp_equal_rest(self.tokens@, q, m0) == Some((m0, q)));
                }
                return Ok(result);
            }
        }
    }

    /// Parses a left-associative relational chain (`>`, `<`, `>=`, `<=`), iteratively.
    #[verifier::rlimit(100)]
    #[verifier::spinoff_prover]
    fn compare(&mut self) -> (r: Result<Expr, TranslateError>)
        requires
            tokens_wf(old(self).tokens@),
            old(self).pos <= old(self).tokens@.len(),
        ensures
            final(self).tokens == old(self).tokens,
            old(self).pos <= final(self).pos <= final(self).tokens@.len(),
            r is Ok ==> final(self).pos > old(self).pos,
            r matches Ok(e) ==> (sp_compare(old(self).tokens@, old(self).pos as int) matches Some(m)
                && expr_model(e) == m.0 && final(self).pos == m.1),
            r is Err ==> sp_compare(old(self).tokens@, old(self).pos as int) is None,
            r matches Err(e) ==> e is Parse,
        decreases old(self).tokens@.len() - old(self).pos, 5int,
    {
        let ghost entry = old(self).pos as int;
        let mut result = self.addition()?;
        proof {
            assert(sp_compare(self.tokens@, entry) == sp_compare_rest(
                self.tokens@,
                self.pos as int,
                expr_model(result),
            ));
        }
        loop
            invariant
                tokens_wf(self.tokens@),
                self.tokens == old(self).tokens,
                entry == old(self).pos,
                old(self).pos < self.pos <= self.tokens@.len(),
                sp_compare(self.tokens@, entry) == sp_compare_rest(
                    self.tokens@,
                    self.pos as int,
                    expr_model(result),
                ),
            decreases self.tokens@.len() - self.pos,
        {
            let ghost q = self.pos as int;
            let ghost m0 = expr_model(result);
            if self.check(TokenType::Gt) {
                let rhs = match self.addition() {
                    Ok(rhs) => rhs,
                    Err(e) => {
                        proof {
                            assert(sp_compare_rest(self.tokens@, q, m0) is None);
                        }
                        return Err(e);
                    },
                };
                result = Expr::Condition(">".to_owned(), Box::new(result), Box::new(rhs));
                proof {
                    assert(sp_compare_rest(self.tokens@, q, m0) == sp_compare_rest(
                        self.tokens@,
                        self.pos as int,
                        expr_model(result),
                    ));
                }
            } else if self.check(TokenType::Lt) {
                let rhs = match self.addition() {
                    Ok(rhs) => rhs,
                    Err(e) => {
                        proof {
                            assert(sp_compare_rest(self.tokens@, q, m0) is None);
                        }
                        return Err(e);
                    },
                };
                result = Expr::Condition("<".to_owned(), Box::new(result), Box::new(rhs));
                proof {
                    assert(sp_compare_rest(self.tokens@, q, m0) == sp_compare_rest(
                        self.tokens@,
                        self.pos as int,
                        expr_model(result),
                    ));
                }
            } else if self.check(TokenType::GtEq) {
                let rhs = match self.addition() {
                    Ok(rhs) => rhs,
                    Err(e) => {
                        proof {
                            assert(sp_compare_rest(self.tokens@, q, m0) is None);
                        }
                        return Err(e);
                    },
                };
                result = Expr::Condition(">=".to_owned(), Box::new(result), Box::new(rhs));
                proof {
                    assert(sp_compare_rest(self.tokens@, q, m0) == sp_compare_rest(
                        self.tokens@,
                        self.pos as int,
                        expr_model(result),
                    ));
                }
            } else if self.check(TokenType::LtEq) {
                let rhs = match self.addition() {
                    Ok(rhs) => rhs,
                    Err(e) => {
                        proof {
                            assert(sp_compare_rest(self.tokens@, q, m0) is None);
                        }
                        return Err(e);
                    },
                };
                result = Expr::Condition("<=".to_owned(), Box::new(result), Box::new(rhs));
                proof {
                    assert(sp_compare_rest(self.tokens@, q, m0) == sp_compare_rest(
                        self.tokens@,
                        self.pos as int,
                        expr_model(result),
                    ));
                }
            } else {
                proof {
                    assert(sp_compare_rest(self.tokens@, q, m0) == Some((m0, q)));
                }
                return Ok(result);
            }
        }
    }

    /// Parses a left-associative additive chain (`+`, `-`), iteratively; additive binds looser than multiplicative.
    #[verifier::rlimit(100)]
    #[verifier::spinoff_prover]
    fn addition(&mut self) -> (r: Result<Expr, TranslateError>)
        requires
            tokens_wf(old(self).tokens@),
            old(self).pos <= old(self).tokens@.len(),
        ensures
            final(self).tokens == old(self).tokens,
            old(self).pos <= final(self).pos <= final(self).tokens@.len(),
            r is Ok ==> final(self).pos > old(self).pos,
            r matches Ok(e) ==> (sp_addition(old(self).tokens@, old(self).pos as int) matches Some(m)
                && expr_model(e) == m.0 && final(self).pos == m.1),
            r is Err ==> sp_addition(old(self).tokens@, old(self).pos as int) is None,
            r matches Err(e) ==> e is Parse,
        decreases old(self).tokens@.len() - old(self).pos, 4int,
    {
        let ghost entry = old(self).pos as int;
        let mut result = self.multiply()?;
        proof {
            assert(sp_addition(self.tokens@, entry) == sp_addition_rest(
                self.tokens@,
                self.pos as int,
                expr_model(result),
            ));
        }
        loop
            invariant
                tokens_wf(self.tokens@),
                self.tokens == old(self).tokens,
                entry == old(self).pos,
                old(self).pos < self.pos <= self.tokens@.len(),
                sp_addition(self.tokens@, entry) == sp_addition_rest(
                    self.tokens@,
                    self.pos as int,
                    expr_model(result),
                ),
            decreases self.tokens@.len() - self.pos,
        {
            let ghost q = self.pos as int;
            let ghost m0 = expr_model(result);
            if self.check(TokenType::Plus) {
                let rhs = match self.multiply() {
                    Ok(rhs) => rhs,
                    Err(e) => {
                        proof {
                            assert(sp_addition_rest(self.tokens@, q, m0) is None);
                        }
                        return Err(e);
                    },
                };
                result = Expr::Binary('+', Box::new(result), Box::new(rhs));
                proof {
                    assert(sp_addition_rest(self.tokens@, q, m0) == sp_addition_rest(
                        self.tokens@,
                        self.pos as int,
                        expr_model(result),
                    ));
                }
            } else if self.check(TokenType::Minus) {
                let rhs = match self.multiply() {
                    Ok(rhs) => rhs,
                    Err(e) => {
                        proof {
                            assert(sp_addition_rest(self.tokens@, q, m0) is None);
                        }
                        return Err(e);
                    },
                };
                result = Expr::Binary('-', Box::new(result), Box::new(rhs));
                proof {
                    assert(sp_addition_rest(self.tokens@, q, m0) == sp_addition_rest(
                        self.tokens@,
                        self.pos as int,
                        expr_model(result),
                    ));
                }
            } else {
                proof {
                    assert(sp_addition_rest(self.tokens@, q, m0) == Some((m0, q)));
                }
                return Ok(result);
            }
        }
    }

    /// Parses a left-associative multiplicative chain (`*`, `/`), iteratively.
    #[verifier::rlimit(100)]
    #[verifier::spinoff_prover]
    fn multiply(&mut self) -> (r: Result<Expr, TranslateError>)
        requires
            tokens_wf(old(self).tokens@),
            old(self).pos <= old(self).tokens@.len(),
        ensures
            final(self).tokens == old(self).tokens,
            old(self).pos <= final(self).pos <= final(self).tokens@.len(),
            r is Ok ==> final(self).pos > old(self).pos,
            r matches Ok(e) ==> (sp_multiply(old(self).tokens@, old(self).pos as int) matches Some(m)
                && expr_model(e) == m.0 && final(self).pos == m.1),
            r is Err ==> sp_multiply(old(self).tokens@, old(self).pos as int) is None,
            r matches Err(e) ==> e is Parse,
        decreases old(self).tokens@.len() - old(self).pos, 3int,
    {
        let ghost entry = old(self).pos as int;
        let mut result = self.unary()?;
        proof {
            assert(sp_multiply(self.tokens@, entry) == sp_multiply_rest(
                self.tokens@,
                self.pos as int,
                expr_model(result),
            ));
        }
        loop
            invariant
                tokens_wf(self.tokens@),
                self.tokens == old(self).tokens,
                entry == old(self).pos,
                old(self).pos < self.pos <= self.tokens@.len(),
                sp_multiply(self.tokens@, entry) == sp_multiply_rest(
                    self.tokens@,
                    self.pos as int,
                    expr_model(result),
                ),
            decreases self.tokens@.len() - self.pos,
        {
            let ghost q = self.pos as int;
            let ghost m0 = expr_model(result);
            if self.check(TokenType::Star) {
                let rhs = match self.unary() {
                    Ok(rhs) => rhs,
                    Err(e) => {
                        proof {
                            assert(sp_multiply_rest(self.tokens@, q, m0) is None);
                        }
                        return Err(e);
                    },
                };
                result = Expr::Binary('*', Box::new(result), Box::new(rhs));
                proof {
                    assert(sp_multiply_rest(self.tokens@, q, m0) == sp_multiply_rest(
                        self.tokens@,
                        self.pos as int,
                        expr_model(result),
                    ));
                }
            } else if self.check(TokenType::Slash) {
                let rhs = match self.unary() {
                    Ok(rhs) => rhs,
                    Err(e) => {
                        proof {
                            assert(sp_multiply_rest(self.tokens@, q, m0) is None);
                        }
                        return Err(e);
                    },
                };
                result = Expr::Binary('/', Box::new(result), Box::new(rhs));
                proof {
                    assert(sp_multiply_rest(self.tokens@, q, m0) == sp_multiply_rest(
                        self.tokens@,
                        self.pos as int,
                        expr_model(result),
                    ));
                }
            } else {
                proof {
                    assert(sp_multiply_rest(self.tokens@, q, m0) == Some((m0, q)));
                }
                return Ok(result);
            }
        }
    }

    /// Parses a unary prefix minus wrapping exactly one primary, or
    /// falls through to a primary.
    #[verifier::rlimit(100)]
    #[verifier::spinoff_prover]
fn unary(&mut self) -> (r: Result<Expr, TranslateError>)
        requires
            tokens_wf(old(self).tokens@),
            old(self).pos <= old(self).tokens@.len(),
        ensures
            final(self).tokens == old(self).tokens,
            old(self).pos <= final(self).pos <= final(self).tokens@.len(),
            r is Ok ==> final(self).pos > old(self).pos,
            r matches Ok(e) ==> (sp_unary(old(self).tokens@, old(self).pos as int) matches Some(m)
                && expr_model(e) == m.0 && final(self).pos == m.1),
            r is Err ==> sp_unary(old(self).tokens@, old(self).pos as int) is None,
            r matches Err(e) ==> e is Parse,
        decreases old(self).tokens@.len() - old(self).pos, 2int,
    {
        if self.check(TokenType::Minus) {
            let operand = self.primary()?;
            return Ok(Expr::Unary('-', Box::new(operand)));
        }
        self.primary()
    }

    /// Parses a primary form: an integer literal, a string literal, a
    /// `new Name(typedArgs)` constructor expression, a call, a bare
    /// identifier, or a parenthesized sub-expression, each carrying
    /// exactly its tokens' payloads.
    #[verifier::rlimit(100)]
    #[verifier::spinoff_prover]
fn primary(&mut self) -> (r: Result<Expr, TranslateError>)
        requires
            tokens_wf(old(self).tokens@),
            old(self).pos <= old(self).tokens@.len(),
        ensures
            final(self).tokens == old(self).tokens,
            old(self).pos <= final(self).pos <= final(self).tokens@.len(),
            r is Ok ==> final(self).pos > old(self).pos,
            r matches Ok(e) ==> (sp_primary(old(self).tokens@, old(self).pos as int)
                matches Some(m) && expr_model(e) == m.0 && final(self).pos == m.1),
            r is Err ==> sp_primary(old(self).tokens@, old(self).pos as int) is None,
            r matches Err(e) ==> e is Parse,
        decreases old(self).tokens@.len() - old(self).pos, 1int,
    {
        let k = self.peek_kind(0);
        if k == TokenType::Number {
            let n = self.tokens.len();
            proof {
                assert(self.pos < n);
            }
            let value = match &self.tokens[self.pos].lexeme {
                Lexeme::NumberLexeme(v) => *v,
                // a number token always carries a numeric lexeme
                _ => {
                    proof {
                        assert(token_wf_at(self.tokens@, self.pos as int));
                        assert(false);
                    }
                    0
                },
            };
            self.pos += 1;
            return Ok(Expr::Value(Value::Number(value)));
        }
        if k == TokenType::String {
            let n = self.tokens.len();
            proof {
                assert(self.pos < n);
            }
            let text = match &self.tokens[self.pos].lexeme {
                Lexeme::StringLexeme(t) => t.clone(),
                // a string token always carries a text lexeme
                _ => {
                    proof {
                        assert(token_wf_at(self.tokens@, self.pos as int));
                        assert(false);
                    }
                    String::new()
                },
            };
            self.pos += 1;
            return Ok(Expr::Value(Value::String(text)));
        }
        if k == TokenType::New && self.peek_kind(1) == TokenType::Word {
            self.consume(TokenType::New)?;
            let name = self.consume_word()?;
            let params = self.get_typed_arguments(TokenType::LeftParen, TokenType::RightParen)?;
            return Ok(Expr::New(name, params));
        }
        if k == TokenType::Word && self.peek_kind(1) == TokenType::LeftParen {
            return self.function();
        }
        if k == TokenType::Word {
            let name = self.consume_word()?;
            return Ok(Expr::VarUse(name));
        }
        if self.check(TokenType::LeftParen) {
            let ghost entry = old(self).pos as int;
            let e = self.expression()?;
            let ghost pexpr = self.pos as int;
            self.consume(TokenType::RightParen)?;
            proof {
                assert(clamp_pos(entry + 2, self.tokens@.len() as int, pexpr) == pexpr);
            }
            return Ok(e);
        }
        let span = self.current_span();
        Err(
            TranslateError::Parse {
                kind: ParseErrorKind::InvalidPrimary,
                start: span.0,
                end: span.1,
            },
        )
    }
}

} // verus!

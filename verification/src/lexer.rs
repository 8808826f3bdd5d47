use vstd::prelude::*;
use crate::error::{LexErrorKind, TranslateError};

verus! {

/// The kind of a scanned token.
#[derive(PartialEq, Eq, Structural, Debug, Copy, Clone)]
pub enum TokenType {
    // Kinds that carry a lexeme payload
    String,
    Number,
    Word,
    // Operators and punctuation
    Plus,
    Minus,
    Star,
    Slash,
    LeftParen,
    RightParen,
    LeftBrace,
    RightBrace,
    Eq,
    NoEq,
    EqEq,
    Gt,
    GtEq,
    Lt,
    LtEq,
    AndAnd,
    OrOr,
    Comma,
    Colon,
    // Keywords
    Var,
    If,
    Else,
    Func,
    While,
    Return,
    Use,
    Struct,
    New,
    // End-of-stream sentinel
    Eof,
}

/// The literal payload attached to a token: a numeric value, a text
/// value, or nothing.
#[derive(Debug, Clone, PartialEq)]
pub enum Lexeme {
    NumberLexeme(u32),
    StringLexeme(String),
    WordLexeme(String),
    Empty,
}

/// One scanned token: its kind, its payload, and the half-open range of
/// character positions `[start, end)` it was scanned from.
#[derive(Debug, Clone)]
pub struct Token {
    pub token_type: TokenType,
    pub lexeme: Lexeme,
    pub start: usize,
    pub end: usize,
}

/// A token is well formed when its span is ordered and its payload kind
/// agrees with its token kind: number tokens carry a numeric lexeme,
/// string tokens a text lexeme, generic identifier tokens a word lexeme,
/// and every other kind carries no payload.
pub open spec fn token_wf(t: Token) -> bool {
    &&& t.start <= t.end
    &&& match t.token_type {
        TokenType::Number => t.lexeme is NumberLexeme,
        TokenType::String => t.lexeme is StringLexeme,
        TokenType::Word => t.lexeme is WordLexeme,
        _ => t.lexeme is Empty,
    }
}

/// A token sequence as handed to the parser: every token well formed,
/// and exactly one end-of-stream sentinel, standing last.
pub open spec fn tokens_wf(ts: Seq<Token>) -> bool {
    &&& ts.len() >= 1
    &&& ts.last().token_type == TokenType::Eof
    &&& forall|i: int| 0 <= i < ts.len() - 1 ==> ts[i].token_type != TokenType::Eof
    &&& forall|i: int| 0 <= i < ts.len() ==> token_wf(#[trigger] ts[i])
}

/// A decimal digit.
pub open spec fn is_digit_char(c: char) -> bool {
    ('0' as u32) <= (c as u32) && (c as u32) <= ('9' as u32)
}

/// An ASCII letter, which may begin a word.
pub open spec fn is_alpha_char(c: char) -> bool {
    ||| ('a' as u32) <= (c as u32) && (c as u32) <= ('z' as u32)
    ||| ('A' as u32) <= (c as u32) && (c as u32) <= ('Z' as u32)
}

/// A character that may continue a word: letters, digits, underscore.
pub open spec fn is_word_char(c: char) -> bool {
    is_alpha_char(c) || is_digit_char(c) || c == '_'
}

/// A member of the fixed punctuation/operator character set.
pub open spec fn is_operator_char(c: char) -> bool {
    c == '+' || c == '-' || c == '*' || c == '/' || c == '=' || c == '<' || c == '>' || c == '('
        || c == ')' || c == '{' || c == '}' || c == '!' || c == '&' || c == '|' || c == ','
        || c == ':'
}

/// The keyword table: an exact match of a whole word against one of the
/// fixed keyword spellings, never a prefix match.
pub open spec fn keyword_token(w: Seq<char>) -> Option<TokenType> {
    if w == "var"@ {
        Some(TokenType::Var)
    } else if w == "if"@ {
        Some(TokenType::If)
    } else if w == "else"@ {
        Some(TokenType::Else)
    } else if w == "func"@ {
        Some(TokenType::Func)
    } else if w == "while"@ {
        Some(TokenType::While)
    } else if w == "return"@ {
        Some(TokenType::Return)
    } else if w == "use"@ {
        Some(TokenType::Use)
    } else if w == "struct"@ {
        Some(TokenType::Struct)
    } else if w == "new"@ {
        Some(TokenType::New)
    } else {
        None
    }
}

/// Where the decimal digit run starting at `pos` ends: the first position
/// at or after `pos` holding no digit.
pub open spec fn digit_run_end(s: Seq<char>, pos: int) -> int
    decreases s.len() - pos when 0 <= pos <= s.len()
{
    if pos >= s.len() || !is_digit_char(s[pos]) {
        pos
    } else {
        digit_run_end(s, pos + 1)
    }
}

/// Where the word run starting at `pos` ends.
pub open spec fn word_run_end(s: Seq<char>, pos: int) -> int
    decreases s.len() - pos when 0 <= pos <= s.len()
{
    if pos >= s.len() || !is_word_char(s[pos]) {
        pos
    } else {
        word_run_end(s, pos + 1)
    }
}

/// Where the operator run starting at `pos` ends.
pub open spec fn op_run_end(s: Seq<char>, pos: int) -> int
    decreases s.len() - pos when 0 <= pos <= s.len()
{
    if pos >= s.len() || !is_operator_char(s[pos]) {
        pos
    } else {
        op_run_end(s, pos + 1)
    }
}

/// The position of the next `"` at or after `pos`, or the text's length
/// when none follows.
pub open spec fn quote_end(s: Seq<char>, pos: int) -> int
    decreases s.len() - pos when 0 <= pos <= s.len()
{
    if pos >= s.len() {
        pos
    } else if s[pos] == '"' {
        pos
    } else {
        quote_end(s, pos + 1)
    }
}

/// The numeric value of a decimal digit character.
pub open spec fn digit_val(c: char) -> int {
    c as u32 - 48
}

/// The integer a digit run `[from, to)` denotes, most significant digit
/// first.
pub open spec fn run_value(s: Seq<char>, from: int, to: int) -> int
    decreases to - from when from <= to
{
    if to <= from {
        0
    } else {
        run_value(s, from, to - 1) * 10 + digit_val(s[to - 1])
    }
}

/// The operator spellings that complete at a single character.
pub open spec fn single_op(c: char) -> Option<TokenType> {
    if c == '+' {
        Some(TokenType::Plus)
    } else if c == '-' {
        Some(TokenType::Minus)
    } else if c == '*' {
        Some(TokenType::Star)
    } else if c == '/' {
        Some(TokenType::Slash)
    } else if c == '(' {
        Some(TokenType::LeftParen)
    } else if c == ')' {
        Some(TokenType::RightParen)
    } else if c == '{' {
        Some(TokenType::LeftBrace)
    } else if c == '}' {
        Some(TokenType::RightBrace)
    } else if c == ',' {
        Some(TokenType::Comma)
    } else if c == ':' {
        Some(TokenType::Colon)
    } else {
        None
    }
}

/// The two-character operator spellings.
pub open spec fn pair_op(c0: char, c1: char) -> Option<TokenType> {
    if c0 == '=' && c1 == '=' {
        Some(TokenType::EqEq)
    } else if c0 == '!' && c1 == '=' {
        Some(TokenType::NoEq)
    } else if c0 == '&' && c1 == '&' {
        Some(TokenType::AndAnd)
    } else if c0 == '|' && c1 == '|' {
        Some(TokenType::OrOr)
    } else {
        None
    }
}

/// What the greedy operator scan at `pos` produces: a token and the
/// position after it, or the end of an unrecognized run. The run is
/// extended one character at a time and stops at the first known
/// spelling, so a single-character spelling wins immediately, a pairable
/// first character may complete at two, and a run that ends on a bare
/// `=` is the assignment operator.
pub enum OpScan {
    Found(TokenType, int),
    Unknown(int),
}

/// The result of the greedy operator scan at `pos`. A `>` or `<`
/// followed immediately by `=` completes as the two-character relational
/// spelling; alone it completes as the one-character one.
pub open spec fn op_scan(s: Seq<char>, pos: int) -> OpScan {
    let c0 = s[pos];
    match single_op(c0) {
        Some(tt) => OpScan::Found(tt, pos + 1),
        None => {
            if c0 == '>' || c0 == '<' {
                if pos + 1 < s.len() && s[pos + 1] == '=' {
                    OpScan::Found(
                        if c0 == '>' {
                            TokenType::GtEq
                        } else {
                            TokenType::LtEq
                        },
                        pos + 2,
                    )
                } else {
                    OpScan::Found(
                        if c0 == '>' {
                            TokenType::Gt
                        } else {
                            TokenType::Lt
                        },
                        pos + 1,
                    )
                }
            } else {
                let e = op_run_end(s, pos);
                if e >= pos + 2 {
                    match pair_op(c0, s[pos + 1]) {
                        Some(tt) => OpScan::Found(tt, pos + 2),
                        None => OpScan::Unknown(e),
                    }
                } else {
                    if c0 == '=' {
                        OpScan::Found(TokenType::Eq, pos + 1)
                    } else {
                        OpScan::Unknown(e)
                    }
                }
            }
        },
    }
}

/// A run-end scan stops exactly at the first position that fails its
/// character class: knowing the class holds on `[from, to)` and fails at
/// `to` (or `to` is the end) pins the run end.
proof fn lemma_digit_run_end_is(s: Seq<char>, from: int, to: int)
    requires
        0 <= from <= to <= s.len(),
        forall|j: int| from <= j < to ==> is_digit_char(#[trigger] s[j]),
        to == s.len() || !is_digit_char(s[to]),
    ensures
        digit_run_end(s, from) == to,
    decreases to - from,
{
    if from < to {
        lemma_digit_run_end_is(s, from + 1, to);
    }
}

proof fn lemma_word_run_end_is(s: Seq<char>, from: int, to: int)
    requires
        0 <= from <= to <= s.len(),
        forall|j: int| from <= j < to ==> is_word_char(#[trigger] s[j]),
        to == s.len() || !is_word_char(s[to]),
    ensures
        word_run_end(s, from) == to,
    decreases to - from,
{
    if from < to {
        lemma_word_run_end_is(s, from + 1, to);
    }
}

proof fn lemma_op_run_end_is(s: Seq<char>, from: int, to: int)
    requires
        0 <= from <= to <= s.len(),
        forall|j: int| from <= j < to ==> is_operator_char(#[trigger] s[j]),
        to == s.len() || !is_operator_char(s[to]),
    ensures
        op_run_end(s, from) == to,
    decreases to - from,
{
    if from < to {
        lemma_op_run_end_is(s, from + 1, to);
    }
}

proof fn lemma_quote_end_is(s: Seq<char>, from: int, to: int)
    requires
        0 <= from <= to <= s.len(),
        forall|j: int| from <= j < to ==> s[j] != '"',
        to == s.len() || s[to] == '"',
    ensures
        quote_end(s, from) == to,
    decreases to - from,
{
    if from < to {
        lemma_quote_end_is(s, from + 1, to);
    }
}

/// An operator run stays within the text and holds operator characters
/// throughout.
proof fn lemma_op_run_end_bounds(s: Seq<char>, from: int)
    requires
        0 <= from <= s.len(),
    ensures
        from <= op_run_end(s, from) <= s.len(),
        forall|j: int| from <= j < op_run_end(s, from) ==> is_operator_char(#[trigger] s[j]),
    decreases s.len() - from,
{
    if from < s.len() && is_operator_char(s[from]) {
        lemma_op_run_end_bounds(s, from + 1);
    }
}

/// An operator run reaches at least as far as any all-operator prefix.
proof fn lemma_op_run_end_ge(s: Seq<char>, from: int, k: int)
    requires
        0 <= from <= k <= s.len(),
        forall|j: int| from <= j < k ==> is_operator_char(#[trigger] s[j]),
    ensures
        op_run_end(s, from) >= k,
    decreases k - from,
{
    lemma_op_run_end_bounds(s, from);
    if from < k {
        assert(is_operator_char(s[from]));
        assert(op_run_end(s, from) == op_run_end(s, from + 1));
        lemma_op_run_end_ge(s, from + 1, k);
    }
}

/// A digit run stays within the text and holds digits throughout.
proof fn lemma_digit_run_end_bounds(s: Seq<char>, from: int)
    requires
        0 <= from <= s.len(),
    ensures
        from <= digit_run_end(s, from) <= s.len(),
        forall|j: int| from <= j < digit_run_end(s, from) ==> is_digit_char(#[trigger] s[j]),
    decreases s.len() - from,
{
    if from < s.len() && is_digit_char(s[from]) {
        lemma_digit_run_end_bounds(s, from + 1);
    }
}

/// A digit run reaches at least as far as any all-digit prefix.
proof fn lemma_digit_run_end_ge(s: Seq<char>, from: int, k: int)
    requires
        0 <= from <= k <= s.len(),
        forall|j: int| from <= j < k ==> is_digit_char(#[trigger] s[j]),
    ensures
        digit_run_end(s, from) >= k,
    decreases k - from,
{
    lemma_digit_run_end_bounds(s, from);
    if from < k {
        assert(is_digit_char(s[from]));
        assert(digit_run_end(s, from) == digit_run_end(s, from + 1));
        lemma_digit_run_end_ge(s, from + 1, k);
    }
}

/// A digit run's value only grows as the run extends.
proof fn lemma_run_value_grows(s: Seq<char>, from: int, k: int, to: int)
    requires
        from <= k <= to,
        forall|j: int| from <= j < to ==> 0 <= digit_val(#[trigger] s[j]),
        run_value(s, from, k) >= 0,
    ensures
        run_value(s, from, to) >= run_value(s, from, k),
        run_value(s, from, to) >= 0,
    decreases to - k,
{
    if k < to {
        assert(run_value(s, from, k + 1) == run_value(s, from, k) * 10 + digit_val(s[k]));
        assert(run_value(s, from, k) * 10 >= run_value(s, from, k)) by (nonlinear_arith)
            requires run_value(s, from, k) >= 0;
        lemma_run_value_grows(s, from, k + 1, to);
    }
}

fn exec_is_digit(c: char) -> (r: bool)
    ensures
        r == is_digit_char(c),
{
    let u = c as u32;
    48 <= u && u <= 57
}

fn exec_is_alpha(c: char) -> (r: bool)
    ensures
        r == is_alpha_char(c),
{
    let u = c as u32;
    (97 <= u && u <= 122) || (65 <= u && u <= 90)
}

fn exec_is_word_char(c: char) -> (r: bool)
    ensures
        r == is_word_char(c),
{
    exec_is_alpha(c) || exec_is_digit(c) || c == '_'
}

fn exec_is_operator_char(c: char) -> (r: bool)
    ensures
        r == is_operator_char(c),
{
    c == '+' || c == '-' || c == '*' || c == '/' || c == '=' || c == '<' || c == '>' || c == '('
        || c == ')' || c == '{' || c == '}' || c == '!' || c == '&' || c == '|' || c == ','
        || c == ':'
}

/// Character-for-character string equality.
pub(crate) fn str_eq(a: &str, b: &str) -> (r: bool)
    ensures
        r == (a@ == b@),
{
    let alen = a.unicode_len();
    let blen = b.unicode_len();
    if alen != blen {
        return false;
    }
    let mut i: usize = 0;
    while i < alen
        invariant
            i <= alen,
            alen == a@.len(),
            alen == b@.len(),
            forall|j: int| 0 <= j < i ==> a@[j] == b@[j],
        decreases alen - i,
    {
        if a.get_char(i) != b.get_char(i) {
            return false;
        }
        i += 1;
    }
    proof {
        assert(a@ =~= b@);
    }
    true
}

/// Looks a whole word up in the keyword table.
fn keyword_of(w: &str) -> (r: Option<TokenType>)
    ensures
        r == keyword_token(w@),
{
    if str_eq(w, "var") {
        Some(TokenType::Var)
    } else if str_eq(w, "if") {
        Some(TokenType::If)
    } else if str_eq(w, "else") {
        Some(TokenType::Else)
    } else if str_eq(w, "func") {
        Some(TokenType::Func)
    } else if str_eq(w, "while") {
        Some(TokenType::While)
    } else if str_eq(w, "return") {
        Some(TokenType::Return)
    } else if str_eq(w, "use") {
        Some(TokenType::Use)
    } else if str_eq(w, "struct") {
        Some(TokenType::Struct)
    } else if str_eq(w, "new") {
        Some(TokenType::New)
    } else {
        None
    }
}

/// A word run stays within the text and holds word characters
/// throughout.
proof fn lemma_word_run_end_bounds(s: Seq<char>, from: int)
    requires
        0 <= from <= s.len(),
    ensures
        from <= word_run_end(s, from) <= s.len(),
        forall|j: int| from <= j < word_run_end(s, from) ==> is_word_char(#[trigger] s[j]),
    decreases s.len() - from,
{
    if from < s.len() && is_word_char(s[from]) {
        lemma_word_run_end_bounds(s, from + 1);
    }
}

/// The next closing quote is never before the search start, nor past the
/// end of the text.
proof fn lemma_quote_end_bounds(s: Seq<char>, from: int)
    requires
        0 <= from <= s.len(),
    ensures
        from <= quote_end(s, from) <= s.len(),
    decreases s.len() - from,
{
    if from < s.len() && s[from] != '"' {
        lemma_quote_end_bounds(s, from + 1);
    }
}

/// The payload of a token, as a mathematical value.
pub enum LexemeModel {
    Num(int),
    Text(Seq<char>),
    Word(Seq<char>),
    NoPayload,
}

/// A token as a mathematical value: its kind, its payload and its span.
pub struct TokenModel {
    pub kind: TokenType,
    pub payload: LexemeModel,
    pub start: int,
    pub end: int,
}

/// The mathematical value of a scanned token.
pub open spec fn token_model(t: Token) -> TokenModel {
    TokenModel {
        kind: t.token_type,
        payload: match t.lexeme {
            Lexeme::NumberLexeme(v) => LexemeModel::Num(v as int),
            Lexeme::StringLexeme(x) => LexemeModel::Text(x@),
            Lexeme::WordLexeme(w) => LexemeModel::Word(w@),
            Lexeme::Empty => LexemeModel::NoPayload,
        },
        start: t.start as int,
        end: t.end as int,
    }
}

/// The mathematical value of a whole token sequence.
pub open spec fn tokens_model(ts: Seq<Token>) -> Seq<TokenModel> {
    ts.map_values(|t: Token| token_model(t))
}

/// What a scan produces: the tokens still to come, or the failure that
/// stops the whole translation.
pub enum LexOutcome {
    Toks(Seq<TokenModel>),
    Fail(LexErrorKind),
}

/// Prepends one token to a scan's outcome; a failure stays a failure.
pub open spec fn lex_cons(t: TokenModel, rest: LexOutcome) -> LexOutcome {
    match rest {
        LexOutcome::Toks(ts) => LexOutcome::Toks(seq![t] + ts),
        LexOutcome::Fail(k) => LexOutcome::Fail(k),
    }
}

/// The whole scan from `pos` on, rule by rule, exactly as the scanner
/// works: a digit run becomes a number token (or fails the 32-bit
/// parse); a quote opens a string literal running to the next quote (or
/// fails unterminated); an operator run is matched greedily (or fails
/// unrecognized); a letter opens a word, matched exactly against the
/// keyword table; any other character is skipped silently; the end of
/// the text yields the single end-of-stream sentinel with an empty span.
pub open spec fn spec_lex_at(s: Seq<char>, pos: int) -> LexOutcome
    decreases s.len() - pos
        when 0 <= pos <= s.len()
        via spec_lex_at_dec
{
    if pos >= s.len() {
        LexOutcome::Toks(
            seq![
                TokenModel {
                    kind: TokenType::Eof,
                    payload: LexemeModel::NoPayload,
                    start: pos,
                    end: pos,
                },
            ],
        )
    } else {
        let c = s[pos];
        if is_digit_char(c) {
            let e = digit_run_end(s, pos);
            if run_value(s, pos, e) > 2147483647 {
                LexOutcome::Fail(LexErrorKind::NumberTooLarge)
            } else {
                lex_cons(
                    TokenModel {
                        kind: TokenType::Number,
                        payload: LexemeModel::Num(run_value(s, pos, e)),
                        start: pos,
                        end: e,
                    },
                    spec_lex_at(s, e),
                )
            }
        } else if c == '"' {
            let q = quote_end(s, pos + 1);
            if q >= s.len() {
                LexOutcome::Fail(LexErrorKind::UnterminatedString)
            } else {
                lex_cons(
                    TokenModel {
                        kind: TokenType::String,
                        payload: LexemeModel::Text(s.subrange(pos + 1, q)),
                        start: pos,
                        end: q,
                    },
                    spec_lex_at(s, q + 1),
                )
            }
        } else if is_operator_char(c) {
            match op_scan(s, pos) {
                OpScan::Found(tt, e) => lex_cons(
                    TokenModel { kind: tt, payload: LexemeModel::NoPayload, start: pos, end: e },
                    spec_lex_at(s, e),
                ),
                OpScan::Unknown(_) => LexOutcome::Fail(LexErrorKind::UnknownOperator),
            }
        } else if is_alpha_char(c) {
            let e = word_run_end(s, pos);
            let w = s.subrange(pos, e);
            let tok = match keyword_token(w) {
                Some(tt) => TokenModel {
                    kind: tt,
                    payload: LexemeModel::NoPayload,
                    start: pos,
                    end: e,
                },
                None => TokenModel {
                    kind: TokenType::Word,
                    payload: LexemeModel::Word(w),
                    start: pos,
                    end: e,
                },
            };
            lex_cons(tok, spec_lex_at(s, e))
        } else {
            spec_lex_at(s, pos + 1)
        }
    }
}

#[via_fn]
proof fn spec_lex_at_dec(s: Seq<char>, pos: int) {
    if 0 <= pos < s.len() {
        let c = s[pos];
        if is_digit_char(c) {
            lemma_digit_run_end_bounds(s, pos + 1);
            assert(digit_run_end(s, pos) == digit_run_end(s, pos + 1));
        } else if c == '"' {
            lemma_quote_end_bounds(s, pos + 1);
        } else if is_operator_char(c) {
            lemma_op_run_end_bounds(s, pos);
        } else if is_alpha_char(c) {
            lemma_word_run_end_bounds(s, pos + 1);
            assert(word_run_end(s, pos) == word_run_end(s, pos + 1));
        }
    }
}

/// The token sequence (or failure) the whole source text scans to.
pub open spec fn spec_lex(s: Seq<char>) -> LexOutcome {
    spec_lex_at(s, 0)
}

/// A token's model rides along when the token is appended.
proof fn lemma_model_push(ts: Seq<Token>, t: Token)
    ensures
        tokens_model(ts.push(t)) == tokens_model(ts).push(token_model(t)),
{
    assert(tokens_model(ts.push(t)) =~= tokens_model(ts).push(token_model(t)));
}

/// The tokens scanned so far plus the scan still to come make up the
/// whole scan.
pub open spec fn lex_continues(s: Seq<char>, done: Seq<TokenModel>, pos: int) -> bool {
    match spec_lex_at(s, pos) {
        LexOutcome::Toks(rest) => spec_lex(s) == LexOutcome::Toks(done + rest),
        LexOutcome::Fail(k) => spec_lex(s) == LexOutcome::Fail(k),
    }
}

proof fn lemma_lex_continues_start(s: Seq<char>)
    ensures
        lex_continues(s, tokens_model(Seq::<Token>::empty()), 0),
{
    assert(tokens_model(Seq::<Token>::empty()) =~= Seq::<TokenModel>::empty());
    if spec_lex_at(s, 0) is Toks {
        let rest = spec_lex_at(s, 0)->Toks_0;
        assert(tokens_model(Seq::<Token>::empty()) + rest =~= rest);
    }
}

/// Scanning one more token carries the composition forward.
proof fn lemma_lex_step(s: Seq<char>, done: Seq<TokenModel>, pos: int, tm: TokenModel, e: int)
    requires
        lex_continues(s, done, pos),
        spec_lex_at(s, pos) == lex_cons(tm, spec_lex_at(s, e)),
    ensures
        lex_continues(s, done.push(tm), e),
{
    if spec_lex_at(s, e) is Toks {
        let rest2 = spec_lex_at(s, e)->Toks_0;
        assert(spec_lex_at(s, pos) == LexOutcome::Toks(seq![tm] + rest2));
        assert(done + (seq![tm] + rest2) =~= done.push(tm) + rest2);
    }
}

/// Keyword matching is exact, never prefix-based: a source text that is
/// one whole word — a letter followed by word characters — matching no
/// keyword spelling scans to a single generic identifier token carrying
/// the word itself, never to a keyword token.
pub proof fn lemma_keyword_match_is_exact(s: Seq<char>)
    requires
        s.len() > 0,
        is_alpha_char(s[0]),
        forall|j: int| 0 <= j < s.len() ==> is_word_char(#[trigger] s[j]),
        keyword_token(s) is None,
    ensures
        spec_lex(s) == LexOutcome::Toks(
            seq![
                TokenModel {
                    kind: TokenType::Word,
                    payload: LexemeModel::Word(s),
                    start: 0,
                    end: s.len() as int,
                },
                TokenModel {
                    kind: TokenType::Eof,
                    payload: LexemeModel::NoPayload,
                    start: s.len() as int,
                    end: s.len() as int,
                },
            ],
        ),
{
    let n = s.len() as int;
    let c = s[0];
    assert(!is_digit_char(c));
    assert(c != '"');
    assert(!is_operator_char(c));
    lemma_word_run_end_is(s, 0, n);
    assert(s.subrange(0, n) =~= s);
    let word = TokenModel {
        kind: TokenType::Word,
        payload: LexemeModel::Word(s),
        start: 0,
        end: n,
    };
    let eof = TokenModel {
        kind: TokenType::Eof,
        payload: LexemeModel::NoPayload,
        start: n,
        end: n,
    };
    assert(spec_lex_at(s, n) == LexOutcome::Toks(seq![eof]));
    assert(spec_lex_at(s, 0) == lex_cons(word, spec_lex_at(s, n)));
    assert(seq![word] + seq![eof] =~= seq![word, eof]);
}

/// Duplicates a lexeme, payload and all.
fn clone_lexeme(l: &Lexeme) -> (r: Lexeme)
    ensures
        r == *l,
{
    match l {
        Lexeme::NumberLexeme(n) => Lexeme::NumberLexeme(*n),
        Lexeme::StringLexeme(s) => Lexeme::StringLexeme(s.clone()),
        Lexeme::WordLexeme(w) => Lexeme::WordLexeme(w.clone()),
        Lexeme::Empty => Lexeme::Empty,
    }
}

/// Duplicates one token.
pub fn clone_token(t: &Token) -> (r: Token)
    ensures
        r == *t,
{
    Token { token_type: t.token_type, lexeme: clone_lexeme(&t.lexeme), start: t.start, end: t.end }
}

/// Duplicates a token sequence.
pub fn clone_tokens(ts: &Vec<Token>) -> (r: Vec<Token>)
    ensures
        r@ == ts@,
{
    let mut out: Vec<Token> = Vec::new();
    let mut i: usize = 0;
    while i < ts.len()
        invariant
            i <= ts@.len(),
            out@.len() == i,
            forall|j: int| 0 <= j < i ==> out@[j] == ts@[j],
        decreases ts@.len() - i,
    {
        out.push(clone_token(&ts[i]));
        i += 1;
    }
    proof {
        assert(out@ =~= ts@);
    }
    out
}

/// Scans source text once, left to right, into a token sequence ending in
/// a single end-of-stream sentinel.
pub struct Lexer {
    pub input: String,
    pub pos: usize,
    pub tokens: Vec<Token>,
}

/// Every token produced so far by the scanning loop: well formed, no
/// sentinel yet, spans within the input.
pub open spec fn body_tokens_ok(ts: Seq<Token>, len: nat) -> bool {
    forall|i: int|
        0 <= i < ts.len() ==> token_wf(#[trigger] ts[i]) && ts[i].token_type != TokenType::Eof
            && ts[i].end <= len
}

impl Lexer {
    /// A fresh lexer over the given source text.
    pub fn new(input: String) -> (r: Lexer)
        ensures
            r.input == input,
            r.pos == 0,
            r.tokens@.len() == 0,
    {
        Lexer { input, pos: 0, tokens: Vec::new() }
    }

    /// Scans a decimal digit run into a number token whose value is the
    /// 32-bit integer parse of the whole run; a run denoting more fails.
    fn lex_digit(&mut self) -> (r: Result<(), TranslateError>)
        requires
            old(self).pos < old(self).input@.len(),
            is_digit_char(old(self).input@[old(self).pos as int]),
        ensures
            final(self).input == old(self).input,
            r is Ok ==> {
                let s = old(self).input@;
                let from = old(self).pos as int;
                let e = digit_run_end(s, from);
                &&& old(self).pos < final(self).pos <= final(self).input@.len()
                &&& final(self).pos == e
                &&& final(self).tokens@ == old(self).tokens@.push(final(self).tokens@.last())
                &&& token_wf(final(self).tokens@.last())
                &&& final(self).tokens@.last().token_type == TokenType::Number
                &&& final(self).tokens@.last().start == from
                &&& final(self).tokens@.last().end == e
                &&& (final(self).tokens@.last().lexeme matches Lexeme::NumberLexeme(v) && v as int
                    == run_value(s, from, e))
                &&& run_value(s, from, e) <= 2147483647
            },
            r matches Err(e) ==> {
                &&& e matches TranslateError::Lex { kind: LexErrorKind::NumberTooLarge, .. }
                &&& run_value(
                    old(self).input@,
                    old(self).pos as int,
                    digit_run_end(old(self).input@, old(self).pos as int),
                ) > 2147483647
            },
    {
        let n = self.input.as_str().unicode_len();
        let start = self.pos;
        let c0 = self.input.as_str().get_char(self.pos);
        let mut value: u32 = (c0 as u32) - 48;
        self.pos += 1;
        proof {
            assert(run_value(self.input@, start as int, start as int) == 0);
            assert(digit_val(self.input@[start as int]) == value);
        }
        loop
            invariant
                self.input == old(self).input,
                self.tokens == old(self).tokens,
                n == self.input@.len(),
                start < self.pos <= n,
                start == old(self).pos,
                value <= 2147483647,
                forall|j: int| start <= j < self.pos ==> is_digit_char(#[trigger] self.input@[j]),
                value as int == run_value(self.input@, start as int, self.pos as int),
            ensures
                self.input == old(self).input,
                self.tokens == old(self).tokens,
                start < self.pos <= n,
                value <= 2147483647,
                forall|j: int| start <= j < self.pos ==> is_digit_char(#[trigger] self.input@[j]),
                value as int == run_value(self.input@, start as int, self.pos as int),
                self.pos == n || !is_digit_char(self.input@[self.pos as int]),
            decreases n - self.pos,
        {
            if self.pos >= n {
                break ;
            }
            let c = self.input.as_str().get_char(self.pos);
            if !exec_is_digit(c) {
                break ;
            }
            let d = (c as u32) - 48;
            if value > 214748364 || (value == 214748364 && d > 7) {
                proof {
                    let s = self.input@;
                    let from = start as int;
                    let e = digit_run_end(s, from);
                    lemma_digit_run_end_bounds(s, from);
                    lemma_digit_run_end_ge(s, from, self.pos + 1);
                    assert(digit_val(s[self.pos as int]) == d);
                    assert(run_value(s, from, self.pos + 1) == value * 10 + d);
                    assert(value * 10 + d > 2147483647) by (nonlinear_arith)
                        requires
                            value as int > 214748364 || (value as int == 214748364 && d as int
                                > 7),
                            0 <= d as int,
                    ;
                    assert forall|j: int| from <= j < e implies 0 <= digit_val(#[trigger] s[j]) by {
                        assert(is_digit_char(s[j]));
                    }
                    lemma_run_value_grows(s, from, self.pos + 1, e);
                }
                return Err(
                    TranslateError::Lex {
                        kind: LexErrorKind::NumberTooLarge,
                        start,
                        end: self.pos,
                    },
                );
            }
            value = value * 10 + d;
            self.pos += 1;
        }
        proof {
            lemma_digit_run_end_is(self.input@, start as int, self.pos as int);
        }
        let token = Token {
            token_type: TokenType::Number,
            lexeme: Lexeme::NumberLexeme(value),
            start,
            end: self.pos,
        };
        self.tokens.push(token);
        Ok(())
    }

    /// Scans a string literal: the opening quote was seen at the current
    /// position; characters are consumed until the next closing quote,
    /// newlines included (the scanner is deliberately permissive: a
    /// literal may span lines). The stored text excludes the quotes; the
    /// recorded span starts at the opening quote and ends at the closing
    /// one. A literal with no closing quote is a lexical error.
    fn lex_string(&mut self) -> (r: Result<(), TranslateError>)
        requires
            old(self).pos < old(self).input@.len(),
            old(self).input@[old(self).pos as int] == '"',
        ensures
            final(self).input == old(self).input,
            r is Ok ==> {
                let s = old(self).input@;
                let quote = old(self).pos as int;
                let q = quote_end(s, quote + 1);
                &&& q < s.len()
                &&& old(self).pos < final(self).pos <= final(self).input@.len()
                &&& final(self).pos == q + 1
                &&& final(self).tokens@ == old(self).tokens@.push(final(self).tokens@.last())
                &&& token_wf(final(self).tokens@.last())
                &&& final(self).tokens@.last().token_type == TokenType::String
                &&& final(self).tokens@.last().start == quote
                &&& final(self).tokens@.last().end == q
                &&& (final(self).tokens@.last().lexeme matches Lexeme::StringLexeme(t) && t@
                    == s.subrange(quote + 1, q))
            },
            r matches Err(e) ==> {
                &&& e matches TranslateError::Lex { kind: LexErrorKind::UnterminatedString, .. }
                &&& quote_end(old(self).input@, old(self).pos + 1) == old(self).input@.len()
            },
    {
        let n = self.input.as_str().unicode_len();
        let quote = self.pos;
        self.pos += 1;
        let start = self.pos;
        loop
            invariant
                self.input == old(self).input,
                self.tokens == old(self).tokens,
                n == self.input@.len(),
                start <= self.pos <= n,
                quote < start,
                quote == old(self).pos,
                start == quote + 1,
                forall|j: int| start <= j < self.pos ==> self.input@[j] != '"',
            decreases n - self.pos,
        {
            if self.pos >= n {
                proof {
                    lemma_quote_end_is(self.input@, start as int, self.pos as int);
                }
                return Err(
                    TranslateError::Lex {
                        kind: LexErrorKind::UnterminatedString,
                        start: quote,
                        end: self.pos,
                    },
                );
            }
            let c = self.input.as_str().get_char(self.pos);
            if c == '"' {
                proof {
                    lemma_quote_end_is(self.input@, start as int, self.pos as int);
                }
                let text = self.input.as_str().substring_char(start, self.pos).to_owned();
                let token = Token {
                    token_type: TokenType::String,
                    lexeme: Lexeme::StringLexeme(text),
                    start: quote,
                    end: self.pos,
                };
                self.tokens.push(token);
                self.pos += 1;
                return Ok(());
            }
            self.pos += 1;
        }
    }

    /// Scans a contiguous run of operator characters greedily: the run is
    /// extended one character at a time and stops at the first known
    /// spelling. Single-character spellings stop at once; `>` and `<`
    /// take a following `=` into `>=` and `<=`; `= ! & |` may pair into
    /// `== != && ||`; a run that ends on a bare `=` is the assignment
    /// operator; any other combination is a lexical error.
    fn lex_operators(&mut self) -> (r: Result<(), TranslateError>)
        requires
            old(self).pos < old(self).input@.len(),
            is_operator_char(old(self).input@[old(self).pos as int]),
        ensures
            final(self).input == old(self).input,
            r is Ok ==> {
                let s = old(self).input@;
                let from = old(self).pos as int;
                let tok = final(self).tokens@.last();
                &&& old(self).pos < final(self).pos <= final(self).input@.len()
                &&& final(self).tokens@ == old(self).tokens@.push(tok)
                &&& token_wf(tok)
                &&& tok.end <= final(self).input@.len()
                &&& tok.token_type != TokenType::Eof
                &&& tok.lexeme is Empty
                &&& tok.start == from
                &&& (op_scan(s, from) matches OpScan::Found(tt, e) && tok.token_type == tt
                    && tok.end == e && final(self).pos == e)
            },
            r matches Err(err) ==> {
                &&& err matches TranslateError::Lex { kind: LexErrorKind::UnknownOperator, .. }
                &&& (op_scan(old(self).input@, old(self).pos as int) matches OpScan::Unknown(q)
                    && final(self).pos == q)
            },
    {
        let n = self.input.as_str().unicode_len();
        let start = self.pos;
        let c0 = self.input.as_str().get_char(self.pos);
        self.pos += 1;
        // spellings complete at one character
        let single: Option<TokenType> = match c0 {
            '+' => Some(TokenType::Plus),
            '-' => Some(TokenType::Minus),
            '*' => Some(TokenType::Star),
            '/' => Some(TokenType::Slash),
            '(' => Some(TokenType::LeftParen),
            ')' => Some(TokenType::RightParen),
            '{' => Some(TokenType::LeftBrace),
            '}' => Some(TokenType::RightBrace),
            ',' => Some(TokenType::Comma),
            ':' => Some(TokenType::Colon),
            _ => None,
        };
        proof {
            assert(single == single_op(c0));
        }
        if let Some(tt) = single {
            let token = Token { token_type: tt, lexeme: Lexeme::Empty, start, end: self.pos };
            self.tokens.push(token);
            return Ok(());
        }
        // a relational character takes a following '=' into its spelling
        if c0 == '>' || c0 == '<' {
            let tt = if self.pos < n && self.input.as_str().get_char(self.pos) == '=' {
                self.pos += 1;
                if c0 == '>' {
                    TokenType::GtEq
                } else {
                    TokenType::LtEq
                }
            } else {
                if c0 == '>' {
                    TokenType::Gt
                } else {
                    TokenType::Lt
                }
            };
            let token = Token { token_type: tt, lexeme: Lexeme::Empty, start, end: self.pos };
            self.tokens.push(token);
            return Ok(());
        }
        // c0 is one of = ! & |, which may pair into a two-character spelling
        loop
            invariant
                self.input == old(self).input,
                self.tokens == old(self).tokens,
                n == self.input@.len(),
                start < self.pos <= n,
                start == old(self).pos,
                c0 == self.input@[start as int],
                single_op(c0) is None,
                forall|j: int| start <= j < self.pos ==> is_operator_char(#[trigger] self.input@[j]),
                self.pos >= start + 2 ==> pair_op(c0, self.input@[start as int + 1]) is None,
            ensures
                self.input == old(self).input,
                self.tokens == old(self).tokens,
                n == self.input@.len(),
                start < self.pos <= n,
                c0 == self.input@[start as int],
                single_op(c0) is None,
                forall|j: int| start <= j < self.pos ==> is_operator_char(#[trigger] self.input@[j]),
                self.pos >= start + 2 ==> pair_op(c0, self.input@[start as int + 1]) is None,
                self.pos == n || !is_operator_char(self.input@[self.pos as int]),
            decreases n - self.pos,
        {
            if self.pos >= n {
                break ;
            }
            let c = self.input.as_str().get_char(self.pos);
            if !exec_is_operator_char(c) {
                break ;
            }
            self.pos += 1;
            if self.pos - start == 2 {
                let pair: Option<TokenType> = if c0 == '=' && c == '=' {
                    Some(TokenType::EqEq)
                } else if c0 == '!' && c == '=' {
                    Some(TokenType::NoEq)
                } else if c0 == '&' && c == '&' {
                    Some(TokenType::AndAnd)
                } else if c0 == '|' && c == '|' {
                    Some(TokenType::OrOr)
                } else {
                    None
                };
                proof {
                    assert(pair == pair_op(c0, self.input@[start as int + 1]));
                }
                if let Some(tt) = pair {
                    proof {
                        lemma_op_run_end_ge(self.input@, start as int, self.pos as int);
                    }
                    let token = Token {
                        token_type: tt,
                        lexeme: Lexeme::Empty,
                        start,
                        end: self.pos,
                    };
                    self.tokens.push(token);
                    return Ok(());
                }
            }
        }
        proof {
            lemma_op_run_end_is(self.input@, start as int, self.pos as int);
        }
        // the run ended without a known spelling
        if self.pos - start == 1 && c0 == '=' {
            let token = Token {
                token_type: TokenType::Eq,
                lexeme: Lexeme::Empty,
                start,
                end: self.pos,
            };
            self.tokens.push(token);
            return Ok(());
        }
        Err(TranslateError::Lex { kind: LexErrorKind::UnknownOperator, start, end: self.pos })
    }

    /// Scans a word: a leading letter followed by letters, digits and
    /// underscores. An exact match against the keyword table yields the
    /// keyword token; any other word is a generic identifier token.
    fn lex_word(&mut self)
        requires
            old(self).pos < old(self).input@.len(),
            is_alpha_char(old(self).input@[old(self).pos as int]),
        ensures
            final(self).input == old(self).input,
            old(self).pos < final(self).pos <= final(self).input@.len(),
            final(self).tokens@ == old(self).tokens@.push(final(self).tokens@.last()),
            token_wf(final(self).tokens@.last()),
            final(self).tokens@.last().end <= final(self).input@.len(),
            final(self).tokens@.last().token_type != TokenType::Eof,
            ({
                let s = old(self).input@;
                let from = old(self).pos as int;
                let e = word_run_end(s, from);
                let w = s.subrange(from, e);
                let tok = final(self).tokens@.last();
                &&& final(self).pos == e
                &&& tok.start == from
                &&& tok.end == e
                &&& match keyword_token(w) {
                    Some(tt) => tok.token_type == tt && tok.lexeme is Empty,
                    None => tok.token_type == TokenType::Word && (tok.lexeme
                        matches Lexeme::WordLexeme(t) && t@ == w),
                }
            }),
    {
        let n = self.input.as_str().unicode_len();
        let start = self.pos;
        self.pos += 1;
        loop
            invariant
                self.input == old(self).input,
                self.tokens == old(self).tokens,
                n == self.input@.len(),
                start < self.pos <= n,
                start == old(self).pos,
                forall|j: int| start <= j < self.pos ==> is_word_char(#[trigger] self.input@[j]),
            ensures
                self.input == old(self).input,
                self.tokens == old(self).tokens,
                start < self.pos <= n,
                forall|j: int| start <= j < self.pos ==> is_word_char(#[trigger] self.input@[j]),
                self.pos == n || !is_word_char(self.input@[self.pos as int]),
            decreases n - self.pos,
        {
            if self.pos >= n {
                break ;
            }
            let c = self.input.as_str().get_char(self.pos);
            if !exec_is_word_char(c) {
                break ;
            }
            self.pos += 1;
        }
        proof {
            lemma_word_run_end_is(self.input@, start as int, self.pos as int);
        }
        let word = self.input.as_str().substring_char(start, self.pos);
        let token = match keyword_of(word) {
            Some(tt) => Token { token_type: tt, lexeme: Lexeme::Empty, start, end: self.pos },
            None => Token {
                token_type: TokenType::Word,
                lexeme: Lexeme::WordLexeme(word.to_owned()),
                start,
                end: self.pos,
            },
        };
        self.tokens.push(token);
    }

    /// Consumes the whole source text once, left to right. Digit runs,
    /// string literals, operator runs and words become tokens; whitespace
    /// and any character matching no scanning rule are skipped silently
    /// (a documented quirk, not an error). On success the token sequence
    /// is well formed and ends in a single end-of-stream sentinel whose
    /// empty span sits at the final scanned position.
    pub fn lex(&mut self) -> (r: Result<(), TranslateError>)
        requires
            old(self).pos == 0,
            old(self).tokens@.len() == 0,
        ensures
            final(self).input == old(self).input,
            r is Ok ==> {
                &&& tokens_wf(final(self).tokens@)
                &&& forall|i: int|
                    0 <= i < final(self).tokens@.len() ==> (#[trigger] final(self).tokens@[i]).end
                        <= final(self).input@.len()
                &&& final(self).tokens@.last().start == final(self).input@.len()
                &&& final(self).tokens@.last().end == final(self).input@.len()
                &&& spec_lex(final(self).input@) == LexOutcome::Toks(
                    tokens_model(final(self).tokens@),
                )
            },
            r matches Err(e) ==> e is Lex && (e matches TranslateError::Lex { kind, .. }
                && spec_lex(old(self).input@) == LexOutcome::Fail(kind)),
    {
        let n = self.input.as_str().unicode_len();
        proof {
            assert(self.tokens@ =~= Seq::<Token>::empty());
            lemma_lex_continues_start(self.input@);
        }
        while self.pos < n
            invariant
                self.input == old(self).input,
                n == self.input@.len(),
                self.pos <= n,
                body_tokens_ok(self.tokens@, n as nat),
                lex_continues(self.input@, tokens_model(self.tokens@), self.pos as int),
            decreases n - self.pos,
        {
            let ghost s = self.input@;
            let ghost p0 = self.pos as int;
            let ghost prev = self.tokens@;
            let c = self.input.as_str().get_char(self.pos);
            if exec_is_digit(c) {
                let outcome = self.lex_digit();
                if let Err(e) = outcome {
                    proof {
                        assert(spec_lex_at(s, p0) == LexOutcome::Fail(
                            LexErrorKind::NumberTooLarge,
                        ));
                    }
                    return Err(e);
                }
                proof {
                    let tm = token_model(self.tokens@.last());
                    assert(spec_lex_at(s, p0) == lex_cons(tm, spec_lex_at(s, self.pos as int)));
                    lemma_lex_step(s, tokens_model(prev), p0, tm, self.pos as int);
                    lemma_model_push(prev, self.tokens@.last());
                }
            } else if c == '"' {
                let outcome = self.lex_string();
                if let Err(e) = outcome {
                    proof {
                        assert(spec_lex_at(s, p0) == LexOutcome::Fail(
                            LexErrorKind::UnterminatedString,
                        ));
                    }
                    return Err(e);
                }
                proof {
                    let tm = token_model(self.tokens@.last());
                    assert(spec_lex_at(s, p0) == lex_cons(tm, spec_lex_at(s, self.pos as int)));
                    lemma_lex_step(s, tokens_model(prev), p0, tm, self.pos as int);
                    lemma_model_push(prev, self.tokens@.last());
                }
            } else if exec_is_operator_char(c) {
                let outcome = self.lex_operators();
                if let Err(e) = outcome {
                    proof {
                        assert(spec_lex_at(s, p0) == LexOutcome::Fail(
                            LexErrorKind::UnknownOperator,
                        ));
                    }
                    return Err(e);
                }
                proof {
                    let tm = token_model(self.tokens@.last());
                    assert(spec_lex_at(s, p0) == lex_cons(tm, spec_lex_at(s, self.pos as int)));
                    lemma_lex_step(s, tokens_model(prev), p0, tm, self.pos as int);
                    lemma_model_push(prev, self.tokens@.last());
                }
            } else if exec_is_alpha(c) {
                self.lex_word();
                proof {
                    let tm = token_model(self.tokens@.last());
                    assert(spec_lex_at(s, p0) == lex_cons(tm, spec_lex_at(s, self.pos as int)));
                    lemma_lex_step(s, tokens_model(prev), p0, tm, self.pos as int);
                    lemma_model_push(prev, self.tokens@.last());
                }
            } else {
                // whitespace, or a character matching no rule: skipped
                proof {
                    assert(spec_lex_at(s, p0) == spec_lex_at(s, p0 + 1));
                }
                self.pos += 1;
            }
        }
        let sentinel = Token {
            token_type: TokenType::Eof,
            lexeme: Lexeme::Empty,
            start: self.pos,
            end: self.pos,
        };
        proof {
            let s = self.input@;
            let eof_model = TokenModel {
                kind: TokenType::Eof,
                payload: LexemeModel::NoPayload,
                start: s.len() as int,
                end: s.len() as int,
            };
            assert(spec_lex_at(s, self.pos as int) == LexOutcome::Toks(seq![eof_model]));
            assert(token_model(sentinel) == eof_model);
            lemma_model_push(self.tokens@, sentinel);
            assert(tokens_model(self.tokens@) + seq![eof_model] =~= tokens_model(
                self.tokens@,
            ).push(eof_model));
        }
        self.tokens.push(sentinel);
        Ok(())
    }
}

} // verus!

//! Arithmetic expressions over facts: `$name` stands for the value of a
//! fact, and numbers, `+ - * / %` and parentheses have their usual meaning.
//! This module reads an expression into a tree; the arithmetic on the
//! numbers of the tree is binary64 arithmetic and is done by the caller.

use vstd::prelude::*;
use vstd::string::StrSliceExecFns;
use crate::layered::LayeredFactDatabase;
use crate::value::{FactData, FactValue};

verus! {

/// The characters of a string, in order.
pub fn chars_of(text: &str) -> (r: Vec<char>)
    ensures
        r@ == text@,
{
    let mut out: Vec<char> = Vec::new();
    for c in it: text.chars()
        invariant
            it.seq() == text@,
            out@ == text@.take(it.index()),
    {
        out.push(c);
        assert(text@.take(it.index() + 1) =~= text@.take(it.index()).push(c));
    }
    assert(text@.take(text@.len() as int) =~= text@);
    out
}

/// Whether a character is white space, as Unicode defines it
/// (`White_Space`).
pub open spec fn is_space(c: char) -> bool {
    let n = c as u32;
    (0x09 <= n <= 0x0d) || n == 0x20 || n == 0x85 || n == 0xa0 || n == 0x1680 || (0x2000 <= n
        <= 0x200a) || n == 0x2028 || n == 0x2029 || n == 0x202f || n == 0x205f || n == 0x3000
}

/// Whether a character is one of the digits `0` to `9`.
pub open spec fn is_digit(c: char) -> bool {
    '0' <= c <= '9'
}

/// Whether a character may stand in the name of a fact behind `$`: an
/// ASCII letter or digit, `_` or `:`.
pub open spec fn is_name_char(c: char) -> bool {
    ('a' <= c <= 'z') || ('A' <= c <= 'Z') || ('0' <= c <= '9') || c == '_' || c == ':'
}

/// Whether a character may stand in a number: a digit or the decimal point.
pub open spec fn is_number_char(c: char) -> bool {
    is_digit(c) || c == '.'
}

/// Whether a character is one of the five operators.
pub open spec fn is_operator(c: char) -> bool {
    c == '+' || c == '-' || c == '*' || c == '/' || c == '%'
}

/// Whether a character is white space.
pub fn space_char(c: char) -> (r: bool)
    ensures
        r == is_space(c),
{
    let n: u32 = c as u32;
    (0x09 <= n && n <= 0x0d) || n == 0x20 || n == 0x85 || n == 0xa0 || n == 0x1680 || (0x2000
        <= n && n <= 0x200a) || n == 0x2028 || n == 0x2029 || n == 0x202f || n == 0x205f || n
        == 0x3000
}

/// Whether a character is a digit.
pub fn digit_char(c: char) -> (r: bool)
    ensures
        r == is_digit(c),
{
    '0' <= c && c <= '9'
}

/// Whether a character may stand in the name of a fact.
pub fn name_char(c: char) -> (r: bool)
    ensures
        r == is_name_char(c),
{
    ('a' <= c && c <= 'z') || ('A' <= c && c <= 'Z') || ('0' <= c && c <= '9') || c == '_' || c
        == ':'
}

/// Whether a character is an operator.
pub fn operator_char(c: char) -> (r: bool)
    ensures
        r == is_operator(c),
{
    c == '+' || c == '-' || c == '*' || c == '/' || c == '%'
}

/// What a number of an expression is, as mathematics.
pub enum NumberData {
    /// A decimal literal, by its text: an optional `-`, then digits with
    /// at most one decimal point among them.
    Literal(Seq<char>),
    /// The value of an integer fact.
    Int(i64),
    /// The value of a binary64 fact, by its bit pattern.
    Float(u64),
    /// The value of a boolean fact: `true` counts as 1, `false` as 0.
    Bool(bool),
}

/// A number of an expression: a literal, or the value of a fact.
#[derive(Debug, PartialEq, Eq)]
pub enum Operand {
    /// A decimal literal, by its text.
    Literal(String),
    /// The value of an integer fact.
    Int(i64),
    /// The value of a binary64 fact, by its bit pattern.
    Float(u64),
    /// The value of a boolean fact: `true` counts as 1, `false` as 0.
    Bool(bool),
}

impl View for Operand {
    type V = NumberData;

    open spec fn view(&self) -> NumberData {
        match self {
            Operand::Literal(text) => NumberData::Literal(text@),
            Operand::Int(v) => NumberData::Int(*v),
            Operand::Float(v) => NumberData::Float(*v),
            Operand::Bool(v) => NumberData::Bool(*v),
        }
    }
}

impl Clone for Operand {
    fn clone(&self) -> (r: Operand)
        ensures
            r@ == self@,
    {
        match self {
            Operand::Literal(text) => Operand::Literal(text.clone()),
            Operand::Int(v) => Operand::Int(*v),
            Operand::Float(v) => Operand::Float(*v),
            Operand::Bool(v) => Operand::Bool(*v),
        }
    }
}

/// What a token is, as mathematics.
pub enum Lexeme {
    Number(NumberData),
    Op(char),
    LParen,
    RParen,
}

/// A token of an expression.
#[derive(Debug, PartialEq, Eq)]
pub enum Token {
    Number(Operand),
    Op(char),
    LParen,
    RParen,
}

impl View for Token {
    type V = Lexeme;

    open spec fn view(&self) -> Lexeme {
        match self {
            Token::Number(n) => Lexeme::Number(n@),
            Token::Op(c) => Lexeme::Op(*c),
            Token::LParen => Lexeme::LParen,
            Token::RParen => Lexeme::RParen,
        }
    }
}

/// The tokens of a list, as mathematics.
pub open spec fn lexemes(list: Seq<Token>) -> Seq<Lexeme> {
    Seq::new(list.len(), |i: int| list[i]@)
}

/// The end of the run of characters of one kind that starts at `i`.
pub open spec fn run_end(s: Seq<char>, i: int, in_run: spec_fn(char) -> bool) -> int
    decreases s.len() - i,
{
    if 0 <= i < s.len() && in_run(s[i]) {
        run_end(s, i + 1, in_run)
    } else {
        i
    }
}

/// The number of characters of one kind in a text.
pub open spec fn count_of(s: Seq<char>, counted: spec_fn(char) -> bool) -> nat
    decreases s.len(),
{
    if s.len() == 0 {
        0
    } else {
        count_of(s.drop_last(), counted) + if counted(s.last()) {
            1nat
        } else {
            0nat
        }
    }
}

/// Whether a run of digits and decimal points, with or without a `-` in
/// front, is a number: it has a digit, and at most one decimal point.
pub open spec fn is_number_text(s: Seq<char>) -> bool {
    count_of(s, |c: char| is_digit(c)) >= 1 && count_of(s, |c: char| c == '.') <= 1
}

/// Whether a `-` at this place is the sign of a number: it is at the start
/// of the expression or behind an operator or an opening parenthesis.
pub open spec fn sign_allowed(done: Seq<Lexeme>) -> bool {
    done.len() == 0 || done.last() is Op || done.last() is LParen
}

/// The number that a fact stands for in an expression: integers, binary64
/// numbers and booleans do; a missing fact or one of another variant stands
/// for nothing.
pub open spec fn resolved(facts: Map<Seq<char>, FactData>, name: Seq<char>) -> Option<
    NumberData,
> {
    if facts.contains_key(name) {
        match facts[name] {
            FactData::Int(v) => Some(NumberData::Int(v)),
            FactData::Float(v) => Some(NumberData::Float(v)),
            FactData::Bool(v) => Some(NumberData::Bool(v)),
            _ => None,
        }
    } else {
        None
    }
}

/// The tokens of the text from position `i` on, behind the tokens `done`;
/// nothing where the text is no sequence of tokens.
///
/// White space is skipped. `$` and the name behind it give the number that
/// the fact of this name stands for. A digit starts a literal, and so does
/// a `-` that may be a sign and has a digit or a decimal point behind it;
/// the literal runs as far as digits and decimal points go. The operators
/// and the parentheses are tokens of one character.
pub open spec fn lex_from(
    s: Seq<char>,
    i: int,
    done: Seq<Lexeme>,
    facts: Map<Seq<char>, FactData>,
) -> Option<Seq<Lexeme>>
    decreases s.len() - i,
{
    if i < 0 || i >= s.len() {
        Some(done)
    } else if is_space(s[i]) {
        lex_from(s, i + 1, done, facts)
    } else if s[i] == '$' {
        let end = run_end(s, i + 1, |c: char| is_name_char(c));
        if end <= i + 1 || end > s.len() {
            None
        } else {
            match resolved(facts, s.subrange(i + 1, end)) {
                Some(number) => lex_from(s, end, done.push(Lexeme::Number(number)), facts),
                None => None,
            }
        }
    } else if is_digit(s[i]) || (s[i] == '-' && sign_allowed(done) && run_end(
        s,
        i + 1,
        |c: char| is_number_char(c),
    ) > i + 1) {
        let end = run_end(s, i + 1, |c: char| is_number_char(c));
        if i < end <= s.len() && is_number_text(s.subrange(i, end)) {
            lex_from(
                s,
                end,
                done.push(Lexeme::Number(NumberData::Literal(s.subrange(i, end)))),
                facts,
            )
        } else {
            None
        }
    } else if is_operator(s[i]) {
        lex_from(s, i + 1, done.push(Lexeme::Op(s[i])), facts)
    } else if s[i] == '(' {
        lex_from(s, i + 1, done.push(Lexeme::LParen), facts)
    } else if s[i] == ')' {
        lex_from(s, i + 1, done.push(Lexeme::RParen), facts)
    } else {
        None
    }
}

/// The tokens of an expression.
pub open spec fn lexed(s: Seq<char>, facts: Map<Seq<char>, FactData>) -> Option<Seq<Lexeme>> {
    lex_from(s, 0, Seq::empty(), facts)
}

/// A run ends at or behind its start and within the text.
pub proof fn lemma_run_end(s: Seq<char>, i: int, in_run: spec_fn(char) -> bool)
    requires
        0 <= i <= s.len(),
    ensures
        i <= run_end(s, i, in_run) <= s.len(),
    decreases s.len() - i,
{
    if i < s.len() && in_run(s[i]) {
        lemma_run_end(s, i + 1, in_run);
    }
}

/// Whether a character may stand in a number.
pub fn number_char(c: char) -> (r: bool)
    ensures
        r == is_number_char(c),
{
    digit_char(c) || c == '.'
}

/// The end of the run of name characters that starts at `start`.
fn scan_name(chars: &Vec<char>, start: usize) -> (r: usize)
    requires
        start <= chars.len(),
    ensures
        start <= r <= chars.len(),
        r == run_end(chars@, start as int, |c: char| is_name_char(c)),
{
    let mut i: usize = start;
    while i < chars.len() && name_char(chars[i])
        invariant
            start <= i <= chars.len(),
            run_end(chars@, start as int, |c: char| is_name_char(c)) == run_end(
                chars@,
                i as int,
                |c: char| is_name_char(c),
            ),
        decreases chars.len() - i,
    {
        i += 1;
    }
    i
}

/// The end of the run of digits and decimal points that starts at `start`.
fn scan_number(chars: &Vec<char>, start: usize) -> (r: usize)
    requires
        start <= chars.len(),
    ensures
        start <= r <= chars.len(),
        r == run_end(chars@, start as int, |c: char| is_number_char(c)),
{
    let mut i: usize = start;
    while i < chars.len() && number_char(chars[i])
        invariant
            start <= i <= chars.len(),
            run_end(chars@, start as int, |c: char| is_number_char(c)) == run_end(
                chars@,
                i as int,
                |c: char| is_number_char(c),
            ),
        decreases chars.len() - i,
    {
        i += 1;
    }
    i
}

} // verus!

verus! {

/// Whether the characters from `from` to `to` are a number: they hold a
/// digit, and at most one decimal point.
fn number_text(chars: &Vec<char>, from: usize, to: usize) -> (r: bool)
    requires
        from <= to <= chars.len(),
    ensures
        r == is_number_text(chars@.subrange(from as int, to as int)),
{
    let ghost text = chars@.subrange(from as int, to as int);
    let mut digits: usize = 0;
    let mut points: usize = 0;
    let mut k: usize = from;
    assert(text.take(0) =~= Seq::<char>::empty());
    while k < to
        invariant
            from <= k <= to <= chars.len(),
            text == chars@.subrange(from as int, to as int),
            digits == count_of(text.take(k - from), |c: char| is_digit(c)),
            points == count_of(text.take(k - from), |c: char| c == '.'),
            digits <= k - from,
            points <= k - from,
        decreases to - k,
    {
        assert(text.take(k - from + 1).drop_last() =~= text.take(k - from));
        assert(text.take(k - from + 1).last() == chars[k as int]);
        if digit_char(chars[k]) {
            digits += 1;
        }
        if chars[k] == '.' {
            points += 1;
        }
        k += 1;
    }
    assert(text.take(to - from) =~= text);
    digits >= 1 && points <= 1
}

/// Whether a `-` behind these tokens is the sign of a number.
fn sign_position(tokens: &Vec<Token>) -> (r: bool)
    ensures
        r == sign_allowed(lexemes(tokens@)),
{
    if tokens.len() == 0 {
        return true;
    }
    assert(lexemes(tokens@).last() == tokens[tokens.len() - 1]@);
    match &tokens[tokens.len() - 1] {
        Token::Op(_) => true,
        Token::LParen => true,
        _ => false,
    }
}

/// The number that the fact of this name stands for in an expression.
pub fn resolve(db: &LayeredFactDatabase, name: &str) -> (r: Option<Operand>)
    ensures
        match resolved(db@, name@) {
            Some(number) => r.is_some() && r.unwrap()@ == number,
            None => r.is_none(),
        },
{
    match db.get_by_str(name) {
        Some(FactValue::Int(v)) => Some(Operand::Int(*v)),
        Some(FactValue::Float(v)) => Some(Operand::Float(*v)),
        Some(FactValue::Bool(v)) => Some(Operand::Bool(*v)),
        _ => None,
    }
}

/// Reads an expression into tokens; `$name` is replaced at once by the
/// number that the fact stands for. Gives nothing where the text holds a
/// character that no token has, a `$` without a name, a name that stands
/// for no number, or a literal that is no number.
pub fn tokenize(expr: &str, db: &LayeredFactDatabase) -> (r: Option<Vec<Token>>)
    ensures
        match lexed(expr@, db@) {
            Some(list) => r.is_some() && lexemes(r.unwrap()@) == list,
            None => r.is_none(),
        },
{
    let chars = chars_of(expr);
    let ghost s = expr@;
    let ghost facts = db@;
    let mut tokens: Vec<Token> = Vec::new();
    let mut i: usize = 0;
    assert(lexemes(tokens@) =~= Seq::<Lexeme>::empty());
    while i < chars.len()
        invariant
            i <= chars.len(),
            chars@ == s,
            s == expr@,
            facts == db@,
            lexed(s, facts) == lex_from(s, i as int, lexemes(tokens@), facts),
        decreases chars.len() - i,
    {
        let c = chars[i];
        let ghost done = lexemes(tokens@);
        if space_char(c) {
            i += 1;
            continue;
        }
        if c == '$' {
            let end = scan_name(&chars, i + 1);
            if end <= i + 1 {
                return None;
            }
            let name = expr.substring_char(i + 1, end);
            match resolve(db, name) {
                Some(number) => {
                    tokens.push(Token::Number(number));
                    assert(lexemes(tokens@) =~= done.push(Lexeme::Number(number@)));
                    i = end;
                },
                None => {
                    return None;
                },
            }
            continue;
        }
        let signed = c == '-' && sign_position(&tokens);
        let end = if digit_char(c) || signed {
            scan_number(&chars, i + 1)
        } else {
            i
        };
        if digit_char(c) || (signed && end > i + 1) {
            if !number_text(&chars, i, end) {
                return None;
            }
            let text = expr.substring_char(i, end);
            tokens.push(Token::Number(Operand::Literal(text.to_owned())));
            assert(lexemes(tokens@) =~= done.push(
                Lexeme::Number(NumberData::Literal(s.subrange(i as int, end as int))),
            ));
            i = end;
            continue;
        }
        if operator_char(c) {
            tokens.push(Token::Op(c));
            assert(lexemes(tokens@) =~= done.push(Lexeme::Op(c)));
        } else if c == '(' {
            tokens.push(Token::LParen);
            assert(lexemes(tokens@) =~= done.push(Lexeme::LParen));
        } else if c == ')' {
            tokens.push(Token::RParen);
            assert(lexemes(tokens@) =~= done.push(Lexeme::RParen));
        } else {
            return None;
        }
        i += 1;
    }
    Some(tokens)
}

} // verus!

verus! {

/// An operator with two operands.
#[derive(Debug, Clone, Copy, PartialEq, Eq, Structural)]
pub enum BinaryOp {
    /// `+`
    Plus,
    /// `-`
    Minus,
    /// `*`
    Times,
    /// `/`; a division by zero gives 0.
    Divide,
    /// `%`; a remainder on division by zero is 0.
    Remainder,
}

/// What an expression is, as mathematics: a tree of operations on numbers.
pub enum ExprData {
    Value(NumberData),
    Negate(Box<ExprData>),
    Binary(BinaryOp, Box<ExprData>, Box<ExprData>),
}

/// An expression, read: a tree of operations on numbers.
#[derive(Debug)]
pub enum Expr {
    /// A number.
    Value(Operand),
    /// The negative of an expression.
    Negate(Box<Expr>),
    /// An operator applied to a left and a right expression.
    Binary(BinaryOp, Box<Expr>, Box<Expr>),
}

impl Expr {
    /// The tree that the expression is.
    pub open spec fn tree(&self) -> ExprData
        decreases self,
    {
        match self {
            Expr::Value(n) => ExprData::Value(n@),
            Expr::Negate(inner) => ExprData::Negate(Box::new(inner.tree())),
            Expr::Binary(op, left, right) => ExprData::Binary(
                *op,
                Box::new(left.tree()),
                Box::new(right.tree()),
            ),
        }
    }
}

impl View for Expr {
    type V = ExprData;

    open spec fn view(&self) -> ExprData {
        self.tree()
    }
}

/// The operator of an additive step, if the token is one.
pub open spec fn additive_op(token: Lexeme) -> Option<BinaryOp> {
    match token {
        Lexeme::Op(c) => if c == '+' {
            Some(BinaryOp::Plus)
        } else if c == '-' {
            Some(BinaryOp::Minus)
        } else {
            None
        },
        _ => None,
    }
}

/// The operator of a multiplicative step, if the token is one.
pub open spec fn multiplicative_op(token: Lexeme) -> Option<BinaryOp> {
    match token {
        Lexeme::Op(c) => if c == '*' {
            Some(BinaryOp::Times)
        } else if c == '/' {
            Some(BinaryOp::Divide)
        } else if c == '%' {
            Some(BinaryOp::Remainder)
        } else {
            None
        },
        _ => None,
    }
}

/// A primary expression at position `start`, and the position behind it:
/// a number, an additive expression in parentheses, or `-` and a primary
/// expression.
pub open spec fn primary(t: Seq<Lexeme>, start: int) -> Option<(ExprData, int)>
    decreases t.len() - start, 0int,
{
    if start < 0 || start >= t.len() {
        None
    } else {
        match t[start] {
            Lexeme::Number(n) => Some((ExprData::Value(n), start + 1)),
            Lexeme::LParen => match additive(t, start + 1) {
                Some((inner, idx)) => if 0 <= idx < t.len() && t[idx] is RParen {
                    Some((inner, idx + 1))
                } else {
                    None
                },
                None => None,
            },
            Lexeme::Op(c) => if c == '-' {
                match primary(t, start + 1) {
                    Some((inner, idx)) => Some((ExprData::Negate(Box::new(inner)), idx)),
                    None => None,
                }
            } else {
                None
            },
            Lexeme::RParen => None,
        }
    }
}

/// The multiplicative expression that starts with `left` and goes on at
/// position `idx` with `*`, `/` or `%` and a primary expression, as often
/// as one follows; operators of one rank group to the left.
pub open spec fn multiplicative_tail(t: Seq<Lexeme>, left: ExprData, idx: int) -> Option<
    (ExprData, int),
>
    decreases t.len() - idx, 1int,
{
    if idx < 0 || idx >= t.len() {
        Some((left, idx))
    } else {
        match multiplicative_op(t[idx]) {
            Some(op) => match primary(t, idx + 1) {
                Some((right, next)) => if idx < next <= t.len() {
                    multiplicative_tail(
                        t,
                        ExprData::Binary(op, Box::new(left), Box::new(right)),
                        next,
                    )
                } else {
                    None
                },
                None => None,
            },
            None => Some((left, idx)),
        }
    }
}

/// A multiplicative expression at position `start`: primary expressions
/// joined by `*`, `/` and `%`.
pub open spec fn multiplicative(t: Seq<Lexeme>, start: int) -> Option<(ExprData, int)>
    decreases t.len() - start, 2int,
{
    match primary(t, start) {
        Some((left, idx)) => if start < idx <= t.len() {
            multiplicative_tail(t, left, idx)
        } else {
            None
        },
        None => None,
    }
}

/// The additive expression that starts with `left` and goes on at position
/// `idx` with `+` or `-` and a multiplicative expression, as often as one
/// follows.
pub open spec fn additive_tail(t: Seq<Lexeme>, left: ExprData, idx: int) -> Option<
    (ExprData, int),
>
    decreases t.len() - idx, 3int,
{
    if idx < 0 || idx >= t.len() {
        Some((left, idx))
    } else {
        match additive_op(t[idx]) {
            Some(op) => match multiplicative(t, idx + 1) {
                Some((right, next)) => if idx < next <= t.len() {
                    additive_tail(t, ExprData::Binary(op, Box::new(left), Box::new(right)), next)
                } else {
                    None
                },
                None => None,
            },
            None => Some((left, idx)),
        }
    }
}

/// An additive expression at position `start`: multiplicative expressions
/// joined by `+` and `-`.
pub open spec fn additive(t: Seq<Lexeme>, start: int) -> Option<(ExprData, int)>
    decreases t.len() - start, 4int,
{
    match multiplicative(t, start) {
        Some((left, idx)) => if start < idx <= t.len() {
            additive_tail(t, left, idx)
        } else {
            None
        },
        None => None,
    }
}

/// The expression that the tokens are, if they are one from the first
/// token to the last.
pub open spec fn parsed(t: Seq<Lexeme>) -> Option<ExprData> {
    match additive(t, 0) {
        Some((tree, idx)) => if idx == t.len() {
            Some(tree)
        } else {
            None
        },
        None => None,
    }
}

/// The expression that a text is on given facts.
pub open spec fn compiled(s: Seq<char>, facts: Map<Seq<char>, FactData>) -> Option<ExprData> {
    match lexed(s, facts) {
        Some(t) => parsed(t),
        None => None,
    }
}

/// Whether an exec result is the given result of the grammar.
pub open spec fn same_parse(r: Option<(Expr, usize)>, expected: Option<(ExprData, int)>) -> bool {
    match expected {
        Some((tree, idx)) => r.is_some() && r.unwrap().0@ == tree && r.unwrap().1 == idx,
        None => r.is_none(),
    }
}

/// A result of the grammar ends behind its start and within the tokens.
pub proof fn lemma_parse_bounds(t: Seq<Lexeme>, start: int, left: ExprData, level: int)
    requires
        0 <= start <= t.len(),
        0 <= level <= 4,
    ensures
        level == 0 ==> (primary(t, start) matches Some((_, idx)) ==> start < idx <= t.len()),
        level == 1 ==> (multiplicative_tail(t, left, start) matches Some((_, idx)) ==> start
            <= idx <= t.len()),
        level == 2 ==> (multiplicative(t, start) matches Some((_, idx)) ==> start < idx
            <= t.len()),
        level == 3 ==> (additive_tail(t, left, start) matches Some((_, idx)) ==> start <= idx
            <= t.len()),
        level == 4 ==> (additive(t, start) matches Some((_, idx)) ==> start < idx <= t.len()),
    decreases t.len() - start, level,
{
    if level == 0 {
        if start < t.len() {
            match t[start] {
                Lexeme::LParen => {
                    lemma_parse_bounds(t, start + 1, left, 4);
                },
                Lexeme::Op(c) => {
                    if c == '-' {
                        lemma_parse_bounds(t, start + 1, left, 0);
                    }
                },
                _ => {},
            }
        }
    } else if level == 1 {
        if start < t.len() {
            match multiplicative_op(t[start]) {
                Some(op) => {
                    lemma_parse_bounds(t, start + 1, left, 0);
                    match primary(t, start + 1) {
                        Some((right, next)) => {
                            lemma_parse_bounds(
                                t,
                                next,
                                ExprData::Binary(op, Box::new(left), Box::new(right)),
                                1,
                            );
                        },
                        None => {},
                    }
                },
                None => {},
            }
        }
    } else if level == 2 {
        lemma_parse_bounds(t, start, left, 0);
        match primary(t, start) {
            Some((first, idx)) => {
                lemma_parse_bounds(t, idx, first, 1);
            },
            None => {},
        }
    } else if level == 3 {
        if start < t.len() {
            match additive_op(t[start]) {
                Some(op) => {
                    lemma_parse_bounds(t, start + 1, left, 2);
                    match multiplicative(t, start + 1) {
                        Some((right, next)) => {
                            lemma_parse_bounds(
                                t,
                                next,
                                ExprData::Binary(op, Box::new(left), Box::new(right)),
                                3,
                            );
                        },
                        None => {},
                    }
                },
                None => {},
            }
        }
    } else {
        lemma_parse_bounds(t, start, left, 2);
        match multiplicative(t, start) {
            Some((first, idx)) => {
                lemma_parse_bounds(t, idx, first, 3);
            },
            None => {},
        }
    }
}

/// Reads a primary expression at position `start`.
pub fn parse_primary(tokens: &Vec<Token>, start: usize) -> (r: Option<(Expr, usize)>)
    ensures
        same_parse(r, primary(lexemes(tokens@), start as int)),
        r.is_some() ==> start < r.unwrap().1 <= tokens.len(),
    decreases tokens.len() - start, 0int,
{
    if start >= tokens.len() {
        return None;
    }
    proof {
        lemma_parse_bounds(lexemes(tokens@), start as int, arbitrary(), 0);
    }
    assert(lexemes(tokens@)[start as int] == tokens[start as int]@);
    match &tokens[start] {
        Token::Number(n) => Some((Expr::Value(n.clone()), start + 1)),
        Token::LParen => match parse_expr(tokens, start + 1) {
            Some((inner, idx)) => {
                if idx < tokens.len() {
                    assert(lexemes(tokens@)[idx as int] == tokens[idx as int]@);
                    match &tokens[idx] {
                        Token::RParen => Some((inner, idx + 1)),
                        _ => None,
                    }
                } else {
                    None
                }
            },
            None => None,
        },
        Token::Op(c) => {
            if *c == '-' {
                match parse_primary(tokens, start + 1) {
                    Some((inner, idx)) => Some((Expr::Negate(Box::new(inner)), idx)),
                    None => None,
                }
            } else {
                None
            }
        },
        Token::RParen => None,
    }
}

/// Goes on with a multiplicative expression behind `left`.
fn parse_multiplicative_tail(tokens: &Vec<Token>, left: Expr, idx: usize) -> (r: Option<
    (Expr, usize),
>)
    requires
        idx <= tokens.len(),
    ensures
        same_parse(r, multiplicative_tail(lexemes(tokens@), left@, idx as int)),
        r.is_some() ==> idx <= r.unwrap().1 <= tokens.len(),
    decreases tokens.len() - idx, 1int,
{
    if idx >= tokens.len() {
        return Some((left, idx));
    }
    proof {
        lemma_parse_bounds(lexemes(tokens@), idx as int, left@, 1);
    }
    assert(lexemes(tokens@)[idx as int] == tokens[idx as int]@);
    let op = match &tokens[idx] {
        Token::Op(c) => {
            if *c == '*' {
                Some(BinaryOp::Times)
            } else if *c == '/' {
                Some(BinaryOp::Divide)
            } else if *c == '%' {
                Some(BinaryOp::Remainder)
            } else {
                None
            }
        },
        _ => None,
    };
    match op {
        Some(op) => match parse_primary(tokens, idx + 1) {
            Some((right, next)) => parse_multiplicative_tail(
                tokens,
                Expr::Binary(op, Box::new(left), Box::new(right)),
                next,
            ),
            None => None,
        },
        None => Some((left, idx)),
    }
}

/// Reads a multiplicative expression at position `start`.
pub fn parse_multiplicative(tokens: &Vec<Token>, start: usize) -> (r: Option<(Expr, usize)>)
    ensures
        same_parse(r, multiplicative(lexemes(tokens@), start as int)),
        r.is_some() ==> start < r.unwrap().1 <= tokens.len(),
    decreases tokens.len() - start, 2int,
{
    match parse_primary(tokens, start) {
        Some((left, idx)) => parse_multiplicative_tail(tokens, left, idx),
        None => None,
    }
}

/// Goes on with an additive expression behind `left`.
fn parse_additive_tail(tokens: &Vec<Token>, left: Expr, idx: usize) -> (r: Option<(Expr, usize)>)
    requires
        idx <= tokens.len(),
    ensures
        same_parse(r, additive_tail(lexemes(tokens@), left@, idx as int)),
        r.is_some() ==> idx <= r.unwrap().1 <= tokens.len(),
    decreases tokens.len() - idx, 3int,
{
    if idx >= tokens.len() {
        return Some((left, idx));
    }
    proof {
        lemma_parse_bounds(lexemes(tokens@), idx as int, left@, 3);
    }
    assert(lexemes(tokens@)[idx as int] == tokens[idx as int]@);
    let op = match &tokens[idx] {
        Token::Op(c) => {
            if *c == '+' {
                Some(BinaryOp::Plus)
            } else if *c == '-' {
                Some(BinaryOp::Minus)
            } else {
                None
            }
        },
        _ => None,
    };
    match op {
        Some(op) => match parse_multiplicative(tokens, idx + 1) {
            Some((right, next)) => parse_additive_tail(
                tokens,
                Expr::Binary(op, Box::new(left), Box::new(right)),
                next,
            ),
            None => None,
        },
        None => Some((left, idx)),
    }
}

/// Reads an additive expression at position `start`.
pub fn parse_additive(tokens: &Vec<Token>, start: usize) -> (r: Option<(Expr, usize)>)
    ensures
        same_parse(r, additive(lexemes(tokens@), start as int)),
        r.is_some() ==> start < r.unwrap().1 <= tokens.len(),
    decreases tokens.len() - start, 4int,
{
    match parse_multiplicative(tokens, start) {
        Some((left, idx)) => parse_additive_tail(tokens, left, idx),
        None => None,
    }
}

/// Reads an expression at position `start`, and gives it with the position
/// behind it.
pub fn parse_expr(tokens: &Vec<Token>, start: usize) -> (r: Option<(Expr, usize)>)
    ensures
        same_parse(r, additive(lexemes(tokens@), start as int)),
        r.is_some() ==> start < r.unwrap().1 <= tokens.len(),
    decreases tokens.len() - start, 5int,
{
    parse_additive(tokens, start)
}

/// Reads the text of an expression into a tree, with each `$name` replaced
/// by the number that the fact stands for. Gives nothing where the text is
/// no expression from its first token to its last, or names a fact that
/// stands for no number.
pub fn compile_expr(expr: &str, db: &LayeredFactDatabase) -> (r: Option<Expr>)
    ensures
        match compiled(expr@, db@) {
            Some(tree) => r.is_some() && r.unwrap()@ == tree,
            None => r.is_none(),
        },
{
    match tokenize(expr, db) {
        Some(tokens) => match parse_expr(&tokens, 0) {
            Some((tree, idx)) => {
                if idx == tokens.len() {
                    Some(tree)
                } else {
                    None
                }
            },
            None => None,
        },
        None => None,
    }
}

} // verus!

verus! {

/// A computation on binary64 numbers, by their bit patterns, that the
/// evaluator asks of its caller.
#[derive(Debug)]
pub enum Request {
    /// The number that a decimal literal stands for.
    Literal(String),
    /// The number nearest to an integer.
    FromInt(i64),
    /// The result of an operator on a left and a right number.
    Apply(BinaryOp, u64, u64),
    /// A number brought into the range from a lower to an upper bound.
    Clamp(u64, u64, u64),
    /// The integer that a number is, if it is a whole number.
    Whole(u64),
}

/// What a request is, as mathematics.
pub enum RequestData {
    Literal(Seq<char>),
    FromInt(i64),
    Apply(BinaryOp, u64, u64),
    Clamp(u64, u64, u64),
    Whole(u64),
}

/// The answer to a request.
#[derive(Debug, Clone, Copy, PartialEq, Eq, Structural)]
pub enum Answer {
    /// A binary64 number, by its bit pattern.
    Number(u64),
    /// An integer.
    Integer(i64),
    /// There is no such number.
    Nothing,
}

impl Answer {
    /// The number that the answer gives, if it gives one.
    pub open spec fn number(self) -> Option<u64> {
        match self {
            Answer::Number(bits) => Some(bits),
            _ => None,
        }
    }

    /// The integer that the answer gives, if it gives one.
    pub open spec fn integer(self) -> Option<i64> {
        match self {
            Answer::Integer(v) => Some(v),
            _ => None,
        }
    }
}

impl View for Request {
    type V = RequestData;

    open spec fn view(&self) -> RequestData {
        match self {
            Request::Literal(text) => RequestData::Literal(text@),
            Request::FromInt(v) => RequestData::FromInt(*v),
            Request::Apply(op, left, right) => RequestData::Apply(*op, *left, *right),
            Request::Clamp(v, min, max) => RequestData::Clamp(*v, *min, *max),
            Request::Whole(v) => RequestData::Whole(*v),
        }
    }
}

/// The bit pattern of the binary64 number 1.
pub const ONE_BITS: u64 = 0x3ff0_0000_0000_0000;

/// The bit pattern of the binary64 number 0.
pub const ZERO_BITS: u64 = 0;

/// The negative of a binary64 number: the same bits with the sign flipped.
pub open spec fn negated(bits: u64) -> u64 {
    bits ^ 0x8000_0000_0000_0000
}

/// Whether `r` is the number that `ask` answers to a request that reads as
/// `request`; an answer without a number counts as no number.
pub open spec fn answers<F: Fn(Request) -> Answer>(
    ask: F,
    request: RequestData,
    r: Option<u64>,
) -> bool {
    exists|asked: Request, answer: Answer|
        asked@ == request && #[trigger] call_ensures(ask, (asked,), answer) && r
            == answer.number()
}

/// Whether `r` is the integer that `ask` answers to a request that reads as
/// `request`; an answer without an integer counts as no integer.
pub open spec fn answers_integer<F: Fn(Request) -> Answer>(
    ask: F,
    request: RequestData,
    r: Option<i64>,
) -> bool {
    exists|asked: Request, answer: Answer|
        asked@ == request && #[trigger] call_ensures(ask, (asked,), answer) && r
            == answer.integer()
}

/// Asks for a number.
pub fn ask_number<F: Fn(Request) -> Answer>(ask: &F, request: Request) -> (r: Option<u64>)
    requires
        forall|any: Request| call_requires(*ask, (any,)),
    ensures
        answers(*ask, request@, r),
{
    match ask(request) {
        Answer::Number(bits) => Some(bits),
        _ => None,
    }
}

/// Asks for an integer.
pub fn ask_integer<F: Fn(Request) -> Answer>(ask: &F, request: Request) -> (r: Option<i64>)
    requires
        forall|any: Request| call_requires(*ask, (any,)),
    ensures
        answers_integer(*ask, request@, r),
{
    match ask(request) {
        Answer::Integer(v) => Some(v),
        _ => None,
    }
}

/// Whether `r` is the number of an operand: the bits of a binary64 fact,
/// 1 or 0 for a boolean, and for a literal or an integer what `ask`
/// answers.
pub open spec fn number_of<F: Fn(Request) -> Answer>(
    ask: F,
    number: NumberData,
    r: Option<u64>,
) -> bool {
    match number {
        NumberData::Literal(text) => answers(ask, RequestData::Literal(text), r),
        NumberData::Int(v) => answers(ask, RequestData::FromInt(v), r),
        NumberData::Float(bits) => r == Some(bits),
        NumberData::Bool(v) => r == Some(if v { ONE_BITS } else { ZERO_BITS }),
    }
}

/// Whether `r` is the result of an operator on two numbers: 0 for a
/// division by zero or a remainder on division by zero, and else what `ask`
/// answers.
pub open spec fn applied<F: Fn(Request) -> Answer>(
    ask: F,
    op: BinaryOp,
    left: u64,
    right: u64,
    r: Option<u64>,
) -> bool {
    if (op == BinaryOp::Divide || op == BinaryOp::Remainder) && crate::value::is_zero_bits(
        right,
    ) {
        r == Some(ZERO_BITS)
    } else {
        answers(ask, RequestData::Apply(op, left, right), r)
    }
}

/// Marks the value of a part of an expression; it holds of every value.
pub open spec fn part(v: Option<u64>) -> bool {
    true
}

/// Whether `r` is the value of the expression, with `ask` for the
/// arithmetic: the operands are evaluated from left to right, and the
/// expression has no value as soon as a part of it has none.
pub open spec fn computes<F: Fn(Request) -> Answer>(
    ask: F,
    tree: ExprData,
    r: Option<u64>,
) -> bool
    decreases tree,
{
    match tree {
        ExprData::Value(number) => number_of(ask, number, r),
        ExprData::Negate(inner) => exists|v: Option<u64>|
            #[trigger] part(v) && computes(ask, *inner, v) && r == (match v {
                Some(bits) => Some(negated(bits)),
                None => None,
            }),
        ExprData::Binary(op, left, right) => exists|a: Option<u64>|
            #[trigger] part(a) && computes(ask, *left, a) && (match a {
                None => r.is_none(),
                Some(x) => exists|b: Option<u64>|
                    #[trigger] part(b) && computes(ask, *right, b) && (match b {
                        None => r.is_none(),
                        Some(y) => applied(ask, op, x, y, r),
                    }),
            }),
    }
}

/// The value of an expression tree, by its bit pattern. The arithmetic on
/// binary64 numbers is asked of `ask`; a division by zero and a remainder on
/// division by zero are 0 and are not asked. Nothing is the value where
/// `ask` has no answer.
pub fn evaluate_tree<F: Fn(Request) -> Answer>(expr: &Expr, ask: &F) -> (r: Option<u64>)
    requires
        forall|request: Request| call_requires(*ask, (request,)),
    ensures
        computes(*ask, expr@, r),
    decreases expr,
{
    match expr {
        Expr::Value(operand) => {
            assert(expr@ == ExprData::Value(operand@));
            let r = match operand {
                Operand::Literal(text) => ask_number(ask, Request::Literal(text.clone())),
                Operand::Int(v) => ask_number(ask, Request::FromInt(*v)),
                Operand::Float(bits) => Some(*bits),
                Operand::Bool(v) => Some(if *v { ONE_BITS } else { ZERO_BITS }),
            };
            assert(number_of(*ask, operand@, r));
            r
        },
        Expr::Negate(inner) => {
            let v = evaluate_tree(inner, ask);
            let r = match v {
                Some(bits) => Some(bits ^ 0x8000_0000_0000_0000),
                None => None,
            };
            assert(computes(*ask, inner@, v));
            assert(expr@ == ExprData::Negate(Box::new(inner@)));
            assert(part(v));
            assert(computes(*ask, expr@, r));
            r
        },
        Expr::Binary(op, left, right) => {
            assert(expr@ == ExprData::Binary(*op, Box::new(left@), Box::new(right@)));
            let a = evaluate_tree(left, ask);
            assert(computes(*ask, left@, a));
            let r = match a {
                None => None,
                Some(x) => {
                    let b = evaluate_tree(right, ask);
                    assert(computes(*ask, right@, b));
                    let r = match b {
                        None => None,
                        Some(y) => {
                            let divides = match op {
                                BinaryOp::Divide => true,
                                BinaryOp::Remainder => true,
                                _ => false,
                            };
                            if divides && crate::value::zero_bits(y) {
                                Some(ZERO_BITS)
                            } else {
                                ask_number(ask, Request::Apply(*op, x, y))
                            }
                        },
                    };
                    assert(part(b) && match b {
                        None => r.is_none(),
                        Some(y) => applied(*ask, *op, x, y, r),
                    });
                    r
                },
            };
            assert(part(a));
            assert(computes(*ask, expr@, r));
            r
        },
    }
}

/// The value of an arithmetic expression over the facts, by its bit
/// pattern, with `ask` for the arithmetic on binary64 numbers. Nothing is
/// the value where the text is no expression, names a fact that stands for
/// no number, or `ask` has no answer.
pub fn evaluate_expr<F: Fn(Request) -> Answer>(
    expr: &str,
    db: &LayeredFactDatabase,
    ask: &F,
) -> (r: Option<u64>)
    requires
        forall|request: Request| call_requires(*ask, (request,)),
    ensures
        match compiled(expr@, db@) {
            Some(tree) => computes(*ask, tree, r),
            None => r.is_none(),
        },
{
    match compile_expr(expr, db) {
        Some(tree) => evaluate_tree(&tree, ask),
        None => None,
    }
}

/// A division by zero is 0, and so is a remainder on division by zero:
/// where the right operand has a zero for its value, of either sign, the
/// expression has the value 0, whatever the left operand's value is and
/// whatever `ask` would answer.
pub proof fn law_zero_divisor_gives_zero<F: Fn(Request) -> Answer>(
    ask: F,
    op: BinaryOp,
    left: ExprData,
    right: ExprData,
    x: u64,
    y: u64,
)
    requires
        op == BinaryOp::Divide || op == BinaryOp::Remainder,
        computes(ask, left, Some(x)),
        computes(ask, right, Some(y)),
        crate::value::is_zero_bits(y),
    ensures
        computes(ask, ExprData::Binary(op, Box::new(left), Box::new(right)), Some(ZERO_BITS)),
{
    assert(part(Some(x)));
    assert(part(Some(y)));
    assert(applied(ask, op, x, y, Some(ZERO_BITS)));
}

/// An expression has no value as soon as a part of it has none.
pub proof fn law_missing_part_gives_nothing<F: Fn(Request) -> Answer>(
    ask: F,
    op: BinaryOp,
    left: ExprData,
    right: ExprData,
    x: u64,
)
    ensures
        computes(ask, left, None) ==> computes(
            ask,
            ExprData::Binary(op, Box::new(left), Box::new(right)),
            None,
        ),
        computes(ask, left, Some(x)) && computes(ask, right, None) ==> computes(
            ask,
            ExprData::Binary(op, Box::new(left), Box::new(right)),
            None,
        ),
        computes(ask, left, None) ==> computes(ask, ExprData::Negate(Box::new(left)), None),
{
    assert(part(None::<u64>));
    assert(part(Some(x)));
}

} // verus!

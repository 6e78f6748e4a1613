use vstd::prelude::*;

use crate::error::CalcError;
use crate::memory::Memory;
use crate::token::{classification, is_float_literal, same_token, Token};

verus! {

/// The four arithmetic operators of the grammar.
#[derive(Debug, Clone, Copy, PartialEq, Eq, Structural)]
pub enum BinOp {
    Add,
    Sub,
    Mul,
    Div,
}

/// An expression as the grammar groups it, with every slot reference
/// already resolved to the slot's value.
#[derive(Debug, PartialEq)]
pub enum Expr<V> {
    /// A literal, as written.
    Number(String),
    /// The value that a slot held.
    Value(V),
    /// `left op right`.
    Binary(BinOp, Box<Expr<V>>, Box<Expr<V>>),
}

/// What a level of the grammar gives: the expression it read and the index
/// one past its last token.
pub type Parsed<V> = Result<(Expr<V>, int), CalcError>;

pub open spec fn additive_op(t: Token) -> Option<BinOp> {
    match t {
        Token::Plus => Some(BinOp::Add),
        Token::Minus => Some(BinOp::Sub),
        _ => None,
    }
}

pub open spec fn multiplicative_op(t: Token) -> Option<BinOp> {
    match t {
        Token::Asterisk => Some(BinOp::Mul),
        Token::Slash => Some(BinOp::Div),
        _ => None,
    }
}

/// additive := multiplicative (('+' | '-') multiplicative)*, grouped to the left.
pub open spec fn parse_additive<V>(ts: Seq<Token>, i: int, mem: Map<Seq<char>, V>) -> Parsed<V>
    decreases ts.len() - i, 2int,
{
    match parse_multiplicative(ts, i, mem) {
        Ok((e, j)) => if i < j <= ts.len() {
            additive_rest(ts, e, j, mem)
        } else {
            Err(CalcError::UnexpectedToken)
        },
        Err(x) => Err(x),
    }
}

/// The `(('+' | '-') multiplicative)*` part, with `acc` read so far up to `j`.
pub open spec fn additive_rest<V>(ts: Seq<Token>, acc: Expr<V>, j: int, mem: Map<Seq<char>, V>) -> Parsed<V>
    decreases ts.len() - j, 2int,
{
    if 0 <= j < ts.len() && additive_op(ts[j]) is Some {
        match parse_multiplicative(ts, j + 1, mem) {
            Ok((e, k)) => if j < k <= ts.len() {
                additive_rest(ts, Expr::Binary(additive_op(ts[j])->0, Box::new(acc), Box::new(e)), k, mem)
            } else {
                Err(CalcError::UnexpectedToken)
            },
            Err(x) => Err(x),
        }
    } else {
        Ok((acc, j))
    }
}

/// multiplicative := primary (('*' | '/') primary)*, grouped to the left.
pub open spec fn parse_multiplicative<V>(ts: Seq<Token>, i: int, mem: Map<Seq<char>, V>) -> Parsed<V>
    decreases ts.len() - i, 1int,
{
    match parse_primary(ts, i, mem) {
        Ok((e, j)) => if i < j <= ts.len() {
            multiplicative_rest(ts, e, j, mem)
        } else {
            Err(CalcError::UnexpectedToken)
        },
        Err(x) => Err(x),
    }
}

/// The `(('*' | '/') primary)*` part, with `acc` read so far up to `j`.
pub open spec fn multiplicative_rest<V>(ts: Seq<Token>, acc: Expr<V>, j: int, mem: Map<Seq<char>, V>) -> Parsed<V>
    decreases ts.len() - j, 1int,
{
    if 0 <= j < ts.len() && multiplicative_op(ts[j]) is Some {
        match parse_primary(ts, j + 1, mem) {
            Ok((e, k)) => if j < k <= ts.len() {
                multiplicative_rest(ts, Expr::Binary(multiplicative_op(ts[j])->0, Box::new(acc), Box::new(e)), k, mem)
            } else {
                Err(CalcError::UnexpectedToken)
            },
            Err(x) => Err(x),
        }
    } else {
        Ok((acc, j))
    }
}

/// primary := '(' additive ')' | number | slot.
pub open spec fn parse_primary<V>(ts: Seq<Token>, i: int, mem: Map<Seq<char>, V>) -> Parsed<V>
    decreases ts.len() - i, 0int,
{
    if i < 0 || i >= ts.len() {
        Err(CalcError::UnexpectedToken)
    } else {
        match ts[i] {
            Token::LParen => match parse_additive(ts, i + 1, mem) {
                Ok((e, j)) => if 0 <= j < ts.len() && ts[j] is RParen {
                    Ok((e, j + 1))
                } else {
                    Err(CalcError::MissingClosingParenthesis)
                },
                Err(x) => Err(x),
            },
            Token::Number(s) => Ok((Expr::Number(s), i + 1)),
            Token::MemoryRef(name) => if mem.contains_key(name@) {
                Ok((Expr::Value(mem[name@]), i + 1))
            } else {
                Err(CalcError::SlotNotFound(name))
            },
            _ => Err(CalcError::UnexpectedToken),
        }
    }
}

/// The whole token sequence read as one additive expression.
pub open spec fn parse_all<V>(ts: Seq<Token>, mem: Map<Seq<char>, V>) -> Result<Expr<V>, CalcError> {
    match parse_additive(ts, 0, mem) {
        Ok((e, j)) => if j == ts.len() {
            Ok(e)
        } else {
            Err(CalcError::UnexpectedToken)
        },
        Err(x) => Err(x),
    }
}

/// An executable level's result `r` is the one that the grammar gives.
pub open spec fn agrees<V>(r: Result<(Expr<V>, usize), CalcError>, s: Parsed<V>) -> bool {
    match r {
        Ok((e, j)) => s == Ok::<(Expr<V>, int), CalcError>((e, j as int)),
        Err(x) => s == Err::<(Expr<V>, int), CalcError>(x),
    }
}

/// Reads the token sequence as one additive expression and checks that no
/// token is left over. Slot references are resolved through `memory`.
pub fn eval_expression<V: Copy>(tokens: &[Token], memory: &Memory<V>) -> (r: Result<Expr<V>, CalcError>)
    requires
        memory.wf(),
    ensures
        r == parse_all(tokens@, memory@),
{
    let (result, next) = match eval_additive_expression(tokens, 0, memory) {
        Ok(p) => p,
        Err(e) => {
            return Err(e);
        },
    };
    if next == tokens.len() {
        Ok(result)
    } else {
        Err(CalcError::UnexpectedToken)
    }
}

fn eval_additive_expression<V: Copy>(tokens: &[Token], index: usize, memory: &Memory<V>) -> (r:
    Result<(Expr<V>, usize), CalcError>)
    requires
        memory.wf(),
        index <= tokens@.len(),
    ensures
        agrees(r, parse_additive(tokens@, index as int, memory@)),
        r matches Ok((_, j)) ==> index < j <= tokens@.len(),
    decreases tokens@.len() - index, 2int,
{
    let ghost target = parse_additive(tokens@, index as int, memory@);
    let (mut result, mut idx) = match eval_multiplicative_expression(tokens, index, memory) {
        Ok(p) => p,
        Err(e) => {
            return Err(e);
        },
    };
    loop
        invariant
            memory.wf(),
            index < idx <= tokens@.len(),
            target == parse_additive(tokens@, index as int, memory@),
            additive_rest(tokens@, result, idx as int, memory@) == target,
        decreases tokens@.len() - idx,
    {
        let op = if idx < tokens.len() {
            match &tokens[idx] {
                Token::Plus => BinOp::Add,
                Token::Minus => BinOp::Sub,
                _ => {
                    return Ok((result, idx));
                },
            }
        } else {
            return Ok((result, idx));
        };
        let (value, next) = match eval_multiplicative_expression(tokens, idx + 1, memory) {
            Ok(p) => p,
            Err(e) => {
                return Err(e);
            },
        };
        result = Expr::Binary(op, Box::new(result), Box::new(value));
        idx = next;
    }
}

fn eval_multiplicative_expression<V: Copy>(tokens: &[Token], index: usize, memory: &Memory<V>) -> (r:
    Result<(Expr<V>, usize), CalcError>)
    requires
        memory.wf(),
        index <= tokens@.len(),
    ensures
        agrees(r, parse_multiplicative(tokens@, index as int, memory@)),
        r matches Ok((_, j)) ==> index < j <= tokens@.len(),
    decreases tokens@.len() - index, 1int,
{
    let ghost target = parse_multiplicative(tokens@, index as int, memory@);
    let (mut result, mut idx) = match eval_primary_expression(tokens, index, memory) {
        Ok(p) => p,
        Err(e) => {
            return Err(e);
        },
    };
    loop
        invariant
            memory.wf(),
            index < idx <= tokens@.len(),
            target == parse_multiplicative(tokens@, index as int, memory@),
            multiplicative_rest(tokens@, result, idx as int, memory@) == target,
        decreases tokens@.len() - idx,
    {
        let op = if idx < tokens.len() {
            match &tokens[idx] {
                Token::Asterisk => BinOp::Mul,
                Token::Slash => BinOp::Div,
                _ => {
                    return Ok((result, idx));
                },
            }
        } else {
            return Ok((result, idx));
        };
        let (value, next) = match eval_primary_expression(tokens, idx + 1, memory) {
            Ok(p) => p,
            Err(e) => {
                return Err(e);
            },
        };
        result = Expr::Binary(op, Box::new(result), Box::new(value));
        idx = next;
    }
}

fn eval_primary_expression<V: Copy>(tokens: &[Token], index: usize, memory: &Memory<V>) -> (r: Result<
    (Expr<V>, usize),
    CalcError,
>)
    requires
        memory.wf(),
        index <= tokens@.len(),
    ensures
        agrees(r, parse_primary(tokens@, index as int, memory@)),
        r matches Ok((_, j)) ==> index < j <= tokens@.len(),
    decreases tokens@.len() - index, 0int,
{
    if index >= tokens.len() {
        return Err(CalcError::UnexpectedToken);
    }
    match &tokens[index] {
        Token::LParen => {
            let (result, next) = match eval_additive_expression(tokens, index + 1, memory) {
                Ok(p) => p,
                Err(e) => {
                    return Err(e);
                },
            };
            if next < tokens.len() && matches!(tokens[next], Token::RParen) {
                Ok((result, next + 1))
            } else {
                Err(CalcError::MissingClosingParenthesis)
            }
        },
        Token::Number(s) => Ok((Expr::Number(s.clone()), index + 1)),
        Token::MemoryRef(name) => match memory.get(name.as_str()) {
            Ok(v) => Ok((Expr::Value(v), index + 1)),
            Err(_) => Err(CalcError::SlotNotFound(name.clone())),
        },
        _ => Err(CalcError::UnexpectedToken),
    }
}

/// A number read back: the text of a `Number` token is a literal that
/// classifies as that same `Number` again, and as the only token of a line
/// it evaluates to the literal itself, whatever the memory holds.
pub proof fn lemma_number_round_trip<V>(t: Token, mem: Map<Seq<char>, V>, r: Result<Token, CalcError>)
    requires
        t is Number,
        is_float_literal(t->Number_0@),
        classification(t->Number_0@, mem.dom(), r),
    ensures
        r is Ok && same_token(r->Ok_0, t),
        parse_all(seq![t], mem) == Ok::<Expr<V>, CalcError>(Expr::Number(t->Number_0)),
{
    let ts = seq![t];
    assert(parse_primary(ts, 0, mem) == Ok::<(Expr<V>, int), CalcError>((Expr::Number(t->Number_0), 1)));
    assert(multiplicative_rest(ts, Expr::<V>::Number(t->Number_0), 1, mem) == Ok::<(Expr<V>, int), CalcError>((Expr::Number(t->Number_0), 1)));
    assert(additive_rest(ts, Expr::<V>::Number(t->Number_0), 1, mem) == Ok::<(Expr<V>, int), CalcError>((Expr::Number(t->Number_0), 1)));
}

/// Multiplication binds tighter than addition: `a + b * c` groups as
/// `a + (b * c)`, for any literals `a`, `b`, `c`.
pub proof fn lemma_multiplication_binds_tighter<V>(a: String, b: String, c: String, mem: Map<Seq<char>, V>)
    ensures
        parse_all(
            seq![Token::Number(a), Token::Plus, Token::Number(b), Token::Asterisk, Token::Number(c)],
            mem,
        ) == Ok::<Expr<V>, CalcError>(
            Expr::Binary(
                BinOp::Add,
                Box::new(Expr::Number(a)),
                Box::new(Expr::Binary(BinOp::Mul, Box::new(Expr::Number(b)), Box::new(Expr::Number(c)))),
            ),
        ),
{
    let ts = seq![Token::Number(a), Token::Plus, Token::Number(b), Token::Asterisk, Token::Number(c)];
    let bc = Expr::<V>::Binary(BinOp::Mul, Box::new(Expr::Number(b)), Box::new(Expr::Number(c)));
    let abc = Expr::<V>::Binary(BinOp::Add, Box::new(Expr::Number(a)), Box::new(bc));
    assert(parse_primary(ts, 4, mem) == Ok::<(Expr<V>, int), CalcError>((Expr::Number(c), 5)));
    assert(multiplicative_rest(ts, bc, 5, mem) == Ok::<(Expr<V>, int), CalcError>((bc, 5)));
    assert(parse_primary(ts, 2, mem) == Ok::<(Expr<V>, int), CalcError>((Expr::Number(b), 3)));
    assert(multiplicative_rest(ts, Expr::Number(b), 3, mem) == Ok::<(Expr<V>, int), CalcError>((bc, 5)));
    assert(parse_multiplicative(ts, 2, mem) == Ok::<(Expr<V>, int), CalcError>((bc, 5)));
    assert(additive_rest(ts, abc, 5, mem) == Ok::<(Expr<V>, int), CalcError>((abc, 5)));
    assert(parse_primary(ts, 0, mem) == Ok::<(Expr<V>, int), CalcError>((Expr::Number(a), 1)));
    assert(multiplicative_rest(ts, Expr::Number(a), 1, mem) == Ok::<(Expr<V>, int), CalcError>((Expr::Number(a), 1)));
    assert(additive_rest(ts, Expr::Number(a), 1, mem) == Ok::<(Expr<V>, int), CalcError>((abc, 5)));
}

/// Parentheses override precedence: `( a + b ) * c` groups as `(a + b) * c`.
pub proof fn lemma_parentheses_group_first<V>(a: String, b: String, c: String, mem: Map<Seq<char>, V>)
    ensures
        parse_all(
            seq![
                Token::LParen,
                Token::Number(a),
                Token::Plus,
                Token::Number(b),
                Token::RParen,
                Token::Asterisk,
                Token::Number(c),
            ],
            mem,
        ) == Ok::<Expr<V>, CalcError>(
            Expr::Binary(
                BinOp::Mul,
                Box::new(Expr::Binary(BinOp::Add, Box::new(Expr::Number(a)), Box::new(Expr::Number(b)))),
                Box::new(Expr::Number(c)),
            ),
        ),
{
    let ts = seq![
        Token::LParen,
        Token::Number(a),
        Token::Plus,
        Token::Number(b),
        Token::RParen,
        Token::Asterisk,
        Token::Number(c),
    ];
    let ab = Expr::<V>::Binary(BinOp::Add, Box::new(Expr::Number(a)), Box::new(Expr::Number(b)));
    let abc = Expr::<V>::Binary(BinOp::Mul, Box::new(ab), Box::new(Expr::Number(c)));
    assert(parse_primary(ts, 3, mem) == Ok::<(Expr<V>, int), CalcError>((Expr::Number(b), 4)));
    assert(multiplicative_rest(ts, Expr::Number(b), 4, mem) == Ok::<(Expr<V>, int), CalcError>((Expr::Number(b), 4)));
    assert(parse_multiplicative(ts, 3, mem) == Ok::<(Expr<V>, int), CalcError>((Expr::Number(b), 4)));
    assert(additive_rest(ts, ab, 4, mem) == Ok::<(Expr<V>, int), CalcError>((ab, 4)));
    assert(parse_primary(ts, 1, mem) == Ok::<(Expr<V>, int), CalcError>((Expr::Number(a), 2)));
    assert(multiplicative_rest(ts, Expr::Number(a), 2, mem) == Ok::<(Expr<V>, int), CalcError>((Expr::Number(a), 2)));
    assert(additive_rest(ts, Expr::Number(a), 2, mem) == Ok::<(Expr<V>, int), CalcError>((ab, 4)));
    assert(parse_additive(ts, 1, mem) == Ok::<(Expr<V>, int), CalcError>((ab, 4)));
    assert(parse_primary(ts, 0, mem) == Ok::<(Expr<V>, int), CalcError>((ab, 5)));
    assert(parse_primary(ts, 6, mem) == Ok::<(Expr<V>, int), CalcError>((Expr::Number(c), 7)));
    assert(multiplicative_rest(ts, abc, 7, mem) == Ok::<(Expr<V>, int), CalcError>((abc, 7)));
    assert(multiplicative_rest(ts, ab, 5, mem) == Ok::<(Expr<V>, int), CalcError>((abc, 7)));
    assert(parse_multiplicative(ts, 0, mem) == Ok::<(Expr<V>, int), CalcError>((abc, 7)));
    assert(additive_rest(ts, abc, 7, mem) == Ok::<(Expr<V>, int), CalcError>((abc, 7)));
}

/// An opening parenthesis whose group runs to the end of the input, as in
/// `( a + b`, fails with `MissingClosingParenthesis`.
pub proof fn lemma_unclosed_parenthesis_fails<V>(a: String, b: String, mem: Map<Seq<char>, V>)
    ensures
        parse_all(seq![Token::LParen, Token::Number(a), Token::Plus, Token::Number(b)], mem)
            == Err::<Expr<V>, CalcError>(CalcError::MissingClosingParenthesis),
{
    let ts = seq![Token::LParen, Token::Number(a), Token::Plus, Token::Number(b)];
    let ab = Expr::<V>::Binary(BinOp::Add, Box::new(Expr::Number(a)), Box::new(Expr::Number(b)));
    assert(parse_primary(ts, 3, mem) == Ok::<(Expr<V>, int), CalcError>((Expr::Number(b), 4)));
    assert(multiplicative_rest(ts, Expr::Number(b), 4, mem) == Ok::<(Expr<V>, int), CalcError>((Expr::Number(b), 4)));
    assert(parse_multiplicative(ts, 3, mem) == Ok::<(Expr<V>, int), CalcError>((Expr::Number(b), 4)));
    assert(additive_rest(ts, ab, 4, mem) == Ok::<(Expr<V>, int), CalcError>((ab, 4)));
    assert(parse_primary(ts, 1, mem) == Ok::<(Expr<V>, int), CalcError>((Expr::Number(a), 2)));
    assert(multiplicative_rest(ts, Expr::Number(a), 2, mem) == Ok::<(Expr<V>, int), CalcError>((Expr::Number(a), 2)));
    assert(additive_rest(ts, Expr::Number(a), 2, mem) == Ok::<(Expr<V>, int), CalcError>((ab, 4)));
    assert(parse_additive(ts, 1, mem) == Ok::<(Expr<V>, int), CalcError>((ab, 4)));
    assert(parse_primary(ts, 0, mem) == Err::<(Expr<V>, int), CalcError>(CalcError::MissingClosingParenthesis));
}

} // verus!

use vstd::prelude::*;

use crate::error::CalcError;
use crate::memory::Memory;

verus! {

/// One classified word of an input line.
#[derive(Debug, PartialEq)]
pub enum Token {
    /// A floating-point literal, kept as written.
    Number(String),
    /// A reference to a memory slot that exists.
    MemoryRef(String),
    /// `mem<name>+`: add the previous result to slot `name`.
    MemoryPlus(String),
    /// `mem<name>-`: subtract the previous result from slot `name`.
    MemoryMinus(String),
    Plus,
    Minus,
    Asterisk,
    Slash,
    LParen,
    RParen,
}

pub open spec fn is_digit(c: char) -> bool {
    '0' <= c && c <= '9'
}

pub open spec fn is_sign(c: char) -> bool {
    c == '+' || c == '-'
}

pub open spec fn is_exponent_marker(c: char) -> bool {
    c == 'e' || c == 'E'
}

/// `s` without one leading sign.
pub open spec fn unsigned_part(s: Seq<char>) -> Seq<char> {
    if s.len() > 0 && is_sign(s[0]) {
        s.drop_first()
    } else {
        s
    }
}

/// `s` spells the lower-case ASCII word `w`, letters in either case.
pub open spec fn equals_ignoring_case(s: Seq<char>, w: Seq<char>) -> bool {
    s.len() == w.len() && forall|i: int|
        0 <= i < s.len() ==> #[trigger] s[i] == w[i] || s[i] as u32 as int + 32 == w[i] as u32 as int
}

pub open spec fn all_digits(s: Seq<char>) -> bool {
    forall|i: int| 0 <= i < s.len() ==> is_digit(#[trigger] s[i])
}

/// Digits with at most one decimal point, and at least one digit.
pub open spec fn is_mantissa(m: Seq<char>) -> bool {
    &&& forall|i: int| 0 <= i < m.len() ==> is_digit(#[trigger] m[i]) || m[i] == '.'
    &&& forall|i: int, j: int| 0 <= i < j < m.len() && #[trigger] m[i] == '.' ==> #[trigger] m[j] != '.'
    &&& exists|i: int| 0 <= i < m.len() && is_digit(#[trigger] m[i])
}

/// An optional sign and at least one digit.
pub open spec fn is_exponent(x: Seq<char>) -> bool {
    unsigned_part(x).len() > 0 && all_digits(unsigned_part(x))
}

/// A mantissa, optionally followed by `e` or `E` and an exponent.
pub open spec fn is_decimal(b: Seq<char>) -> bool {
    is_mantissa(b) || exists|k: int|
        0 <= k < b.len() && is_exponent_marker(#[trigger] b[k]) && is_mantissa(b.take(k))
            && is_exponent(b.skip(k + 1))
}

/// The literals that Rust's `f64` parser accepts: an optional sign, then
/// `inf`, `infinity` or `nan` in any case, or a decimal number.
pub open spec fn is_float_literal(s: Seq<char>) -> bool {
    let b = unsigned_part(s);
    ||| equals_ignoring_case(b, seq!['i', 'n', 'f'])
    ||| equals_ignoring_case(b, seq!['i', 'n', 'f', 'i', 'n', 'i', 't', 'y'])
    ||| equals_ignoring_case(b, seq!['n', 'a', 'n'])
    ||| is_decimal(b)
}

/// `mem<name>+` or `mem<name>-`, the name possibly empty.
pub open spec fn is_memory_command(w: Seq<char>) -> bool {
    &&& w.len() >= 4
    &&& w[0] == 'm' && w[1] == 'e' && w[2] == 'm'
    &&& is_sign(w.last())
}

/// The slot name of a memory command: what stands between `mem` and the sign.
pub open spec fn memory_command_name(w: Seq<char>) -> Seq<char> {
    w.subrange(3, w.len() - 1)
}

/// What classifying the word `w` must give, with `names` the slots that exist.
/// The rules are tried in order and the first that matches decides.
pub open spec fn classification(w: Seq<char>, names: Set<Seq<char>>, r: Result<Token, CalcError>) -> bool {
    if is_float_literal(w) {
        r matches Ok(Token::Number(s)) && s@ == w
    } else if is_memory_command(w) {
        if w.last() == '+' {
            r matches Ok(Token::MemoryPlus(s)) && s@ == memory_command_name(w)
        } else {
            r matches Ok(Token::MemoryMinus(s)) && s@ == memory_command_name(w)
        }
    } else if names.contains(w) {
        r matches Ok(Token::MemoryRef(s)) && s@ == w
    } else if w == seq!['+'] {
        r == Ok::<Token, CalcError>(Token::Plus)
    } else if w == seq!['-'] {
        r == Ok::<Token, CalcError>(Token::Minus)
    } else if w == seq!['*'] {
        r == Ok::<Token, CalcError>(Token::Asterisk)
    } else if w == seq!['/'] {
        r == Ok::<Token, CalcError>(Token::Slash)
    } else if w == seq!['('] {
        r == Ok::<Token, CalcError>(Token::LParen)
    } else if w == seq![')'] {
        r == Ok::<Token, CalcError>(Token::RParen)
    } else {
        r matches Err(CalcError::UnrecognizedToken(s)) && s@ == w
    }
}

/// The characters of `s`, one by one.
fn chars_of(s: &str) -> (v: Vec<char>)
    ensures
        v@ == s@,
{
    let n = s.unicode_len();
    let mut v: Vec<char> = Vec::new();
    let mut i: usize = 0;
    while i < n
        invariant
            n == s@.len(),
            i <= n,
            v@ == s@.take(i as int),
        decreases n - i,
    {
        v.push(s.get_char(i));
        i = i + 1;
    }
    assert(v@ =~= s@);
    v
}

fn slice_chars(v: &Vec<char>, lo: usize, hi: usize) -> (r: Vec<char>)
    requires
        lo <= hi <= v@.len(),
    ensures
        r@ == v@.subrange(lo as int, hi as int),
{
    let mut r: Vec<char> = Vec::new();
    let mut i: usize = lo;
    while i < hi
        invariant
            lo <= i <= hi <= v@.len(),
            r@ == v@.subrange(lo as int, i as int),
        decreases hi - i,
    {
        r.push(v[i]);
        i = i + 1;
        assert(r@ =~= v@.subrange(lo as int, i as int));
    }
    r
}

fn unsigned_chars(v: &Vec<char>) -> (r: Vec<char>)
    ensures
        r@ == unsigned_part(v@),
{
    if v.len() > 0 && (v[0] == '+' || v[0] == '-') {
        let r = slice_chars(v, 1, v.len());
        assert(r@ =~= v@.drop_first());
        r
    } else {
        slice_chars(v, 0, v.len())
    }
}

fn chars_equal_ignoring_case(s: &Vec<char>, w: &Vec<char>) -> (r: bool)
    ensures
        r == equals_ignoring_case(s@, w@),
{
    if s.len() != w.len() {
        return false;
    }
    let mut i: usize = 0;
    while i < s.len()
        invariant
            s@.len() == w@.len(),
            i <= s@.len(),
            forall|k: int| 0 <= k < i ==> #[trigger] s@[k] == w@[k] || s@[k] as u32 as int + 32 == w@[k] as u32 as int,
        decreases s.len() - i,
    {
        let c = s[i];
        let d = w[i];
        if !(c == d || c as u32 as u64 + 32 == d as u32 as u64) {
            return false;
        }
        i = i + 1;
    }
    true
}

fn chars_all_digits(s: &Vec<char>) -> (r: bool)
    ensures
        r == all_digits(s@),
{
    let mut i: usize = 0;
    while i < s.len()
        invariant
            i <= s@.len(),
            forall|k: int| 0 <= k < i ==> is_digit(#[trigger] s@[k]),
        decreases s.len() - i,
    {
        if !('0' <= s[i] && s[i] <= '9') {
            return false;
        }
        i = i + 1;
    }
    true
}

fn chars_mantissa(m: &Vec<char>) -> (r: bool)
    ensures
        r == is_mantissa(m@),
{
    let mut dot: Option<usize> = None;
    let mut digit: bool = false;
    let mut i: usize = 0;
    while i < m.len()
        invariant
            i <= m@.len(),
            forall|k: int| 0 <= k < i ==> is_digit(#[trigger] m@[k]) || m@[k] == '.',
            forall|a: int, b: int| 0 <= a < b < i && #[trigger] m@[a] == '.' ==> #[trigger] m@[b] != '.',
            dot matches Some(d) ==> d < i && m@[d as int] == '.',
            dot is None ==> forall|k: int| 0 <= k < i ==> #[trigger] m@[k] != '.',
            digit == exists|k: int| 0 <= k < i && is_digit(#[trigger] m@[k]),
        decreases m.len() - i,
    {
        let c = m[i];
        if '0' <= c && c <= '9' {
            digit = true;
        } else if c == '.' {
            if let Some(d) = dot {
                assert(m@[d as int] == '.' && m@[i as int] == '.');
                return false;
            }
            dot = Some(i);
        } else {
            assert(!(is_digit(m@[i as int]) || m@[i as int] == '.'));
            return false;
        }
        i = i + 1;
    }
    digit
}

fn chars_exponent(x: &Vec<char>) -> (r: bool)
    ensures
        r == is_exponent(x@),
{
    let d = unsigned_chars(x);
    d.len() > 0 && chars_all_digits(&d)
}

fn chars_decimal(b: &Vec<char>) -> (r: bool)
    ensures
        r == is_decimal(b@),
{
    let mut k: usize = 0;
    while k < b.len() && !(b[k] == 'e' || b[k] == 'E')
        invariant
            k <= b@.len(),
            forall|j: int| 0 <= j < k ==> !is_exponent_marker(#[trigger] b@[j]),
        decreases b.len() - k,
    {
        k = k + 1;
    }
    if k == b.len() {
        let r = chars_mantissa(b);
        assert(!exists|j: int|
            0 <= j < b@.len() && is_exponent_marker(#[trigger] b@[j]) && is_mantissa(b@.take(j))
                && is_exponent(b@.skip(j + 1)));
        r
    } else {
        let m = slice_chars(b, 0, k);
        let x = slice_chars(b, k + 1, b.len());
        assert(m@ =~= b@.take(k as int));
        assert(x@ =~= b@.skip(k + 1));
        let r = chars_mantissa(&m) && chars_exponent(&x);
        assert(!is_mantissa(b@)) by {
            assert(!(is_digit(b@[k as int]) || b@[k as int] == '.'));
        }
        if !r {
            assert forall|j: int|
                0 <= j < b@.len() && is_exponent_marker(#[trigger] b@[j]) implies !(is_mantissa(
                b@.take(j),
            ) && is_exponent(b@.skip(j + 1))) by {
                if j > k {
                    assert(b@.take(j)[k as int] == b@[k as int]);
                }
            }
        }
        r
    }
}

/// Whether `w` is a literal that Rust's `f64` parser accepts.
pub fn is_float_literal_word(w: &str) -> (r: bool)
    ensures
        r == is_float_literal(w@),
{
    let v = chars_of(w);
    let b = unsigned_chars(&v);
    let inf: Vec<char> = vec!['i', 'n', 'f'];
    let infinity: Vec<char> = vec!['i', 'n', 'f', 'i', 'n', 'i', 't', 'y'];
    let nan: Vec<char> = vec!['n', 'a', 'n'];
    chars_equal_ignoring_case(&b, &inf) || chars_equal_ignoring_case(&b, &infinity)
        || chars_equal_ignoring_case(&b, &nan) || chars_decimal(&b)
}

impl Token {
    /// Classifies one word, given the slots of `memory` that exist. In order:
    /// a float literal is a `Number`; `mem<name>+` and `mem<name>-` are
    /// memory commands; the name of an existing slot is a `MemoryRef`;
    /// `+ - * / ( )` are operators and parentheses. Anything else is an
    /// `UnrecognizedToken`.
    pub fn parse<V: Copy>(input: &str, memory: &Memory<V>) -> (r: Result<Token, CalcError>)
        requires
            memory.wf(),
        ensures
            classification(input@, memory@.dom(), r),
    {
        if is_float_literal_word(input) {
            return Ok(Token::Number(String::from_str(input)));
        }
        let v = chars_of(input);
        let n = v.len();
        if n >= 4 && v[0] == 'm' && v[1] == 'e' && v[2] == 'm' && (v[n - 1] == '+' || v[n - 1]
            == '-') {
            let name = String::from_str(input.substring_char(3, n - 1));
            if v[n - 1] == '+' {
                return Ok(Token::MemoryPlus(name));
            } else {
                return Ok(Token::MemoryMinus(name));
            }
        }
        if memory.contains(input) {
            return Ok(Token::MemoryRef(String::from_str(input)));
        }
        if n == 1 {
            let c = v[0];
            proof {
                assert(input@ =~= seq![c]);
            }
            if c == '+' {
                return Ok(Token::Plus);
            } else if c == '-' {
                return Ok(Token::Minus);
            } else if c == '*' {
                return Ok(Token::Asterisk);
            } else if c == '/' {
                return Ok(Token::Slash);
            } else if c == '(' {
                return Ok(Token::LParen);
            } else if c == ')' {
                return Ok(Token::RParen);
            }
        }
        Err(CalcError::UnrecognizedToken(String::from_str(input)))
    }
}

/// Two tokens of one variant whose texts read the same.
pub open spec fn same_token(a: Token, b: Token) -> bool {
    match (a, b) {
        (Token::Number(x), Token::Number(y)) => x@ == y@,
        (Token::MemoryRef(x), Token::MemoryRef(y)) => x@ == y@,
        (Token::MemoryPlus(x), Token::MemoryPlus(y)) => x@ == y@,
        (Token::MemoryMinus(x), Token::MemoryMinus(y)) => x@ == y@,
        (Token::Plus, Token::Plus) => true,
        (Token::Minus, Token::Minus) => true,
        (Token::Asterisk, Token::Asterisk) => true,
        (Token::Slash, Token::Slash) => true,
        (Token::LParen, Token::LParen) => true,
        (Token::RParen, Token::RParen) => true,
        _ => false,
    }
}

/// Two outcomes of classification that say the same thing.
pub open spec fn same_outcome(a: Result<Token, CalcError>, b: Result<Token, CalcError>) -> bool {
    match (a, b) {
        (Ok(x), Ok(y)) => same_token(x, y),
        (Err(CalcError::UnrecognizedToken(x)), Err(CalcError::UnrecognizedToken(y))) => x@ == y@,
        _ => false,
    }
}

pub open spec fn is_operator_word(w: Seq<char>) -> bool {
    w == seq!['+'] || w == seq!['-'] || w == seq!['*'] || w == seq!['/'] || w == seq!['(']
        || w == seq![')']
}

/// Classification is a function of the word and the set of slot names:
/// any two outcomes that it allows are the same token (or the same
/// failure), so classifying a word again gives what it gave before. It
/// fails exactly when none of its rules applies.
pub proof fn lemma_classification_deterministic(
    w: Seq<char>,
    names: Set<Seq<char>>,
    r1: Result<Token, CalcError>,
    r2: Result<Token, CalcError>,
)
    requires
        classification(w, names, r1),
        classification(w, names, r2),
    ensures
        same_outcome(r1, r2),
        r1 is Err <==> !(is_float_literal(w) || is_memory_command(w) || names.contains(w)
            || is_operator_word(w)),
{
}

/// Unicode's White_Space property, which `char::is_whitespace` tests.
pub open spec fn is_white_space(c: char) -> bool {
    let u = c as u32;
    ||| 0x9 <= u && u <= 0xd
    ||| u == 0x20 || u == 0x85 || u == 0xa0 || u == 0x1680
    ||| 0x2000 <= u && u <= 0x200a
    ||| u == 0x2028 || u == 0x2029 || u == 0x202f || u == 0x205f || u == 0x3000
}

fn white_space(c: char) -> (r: bool)
    ensures
        r == is_white_space(c),
{
    let u = c as u32;
    (0x9 <= u && u <= 0xd) || u == 0x20 || u == 0x85 || u == 0xa0 || u == 0x1680 || (0x2000 <= u
        && u <= 0x200a) || u == 0x2028 || u == 0x2029 || u == 0x202f || u == 0x205f || u == 0x3000
}

/// The maximal runs of characters that are not white space, in order.
pub open spec fn words(s: Seq<char>) -> Seq<Seq<char>>
    decreases s.len(),
{
    if s.len() == 0 {
        Seq::empty()
    } else {
        let p = words(s.drop_last());
        let c = s.last();
        if is_white_space(c) {
            p
        } else if s.len() >= 2 && !is_white_space(s[s.len() - 2]) {
            p.update(p.len() - 1, p.last().push(c))
        } else {
            p.push(seq![c])
        }
    }
}

proof fn lemma_words_nonempty(s: Seq<char>)
    requires
        s.len() > 0,
        !is_white_space(s.last()),
    ensures
        words(s).len() > 0,
    decreases s.len(),
{
    if s.len() >= 2 && !is_white_space(s[s.len() - 2]) {
        lemma_words_nonempty(s.drop_last());
    }
}

/// A word that one of the classification rules accepts.
pub open spec fn word_ok(w: Seq<char>, names: Set<Seq<char>>) -> bool {
    is_float_literal(w) || is_memory_command(w) || names.contains(w) || is_operator_word(w)
}

/// Start and end of each word of `v`.
fn word_bounds(v: &Vec<char>) -> (b: Vec<(usize, usize)>)
    ensures
        b@.len() == words(v@).len(),
        forall|k: int|
            0 <= k < b@.len() ==> #[trigger] b@[k].0 <= b@[k].1 <= v@.len() && v@.subrange(
                b@[k].0 as int,
                b@[k].1 as int,
            ) == words(v@)[k],
{
    let mut b: Vec<(usize, usize)> = Vec::new();
    let mut open: Option<usize> = None;
    let mut i: usize = 0;
    while i < v.len()
        invariant
            i <= v@.len(),
            forall|k: int|
                0 <= k < b@.len() ==> #[trigger] b@[k].0 <= b@[k].1 <= i && v@.subrange(
                    b@[k].0 as int,
                    b@[k].1 as int,
                ) == words(v@.take(i as int))[k],
            open is None ==> b@.len() == words(v@.take(i as int)).len() && (i == 0
                || is_white_space(v@[i - 1])),
            open matches Some(s) ==> s < i && b@.len() + 1 == words(v@.take(i as int)).len()
                && words(v@.take(i as int)).last() == v@.subrange(s as int, i as int)
                && !is_white_space(v@[i - 1]),
        decreases v.len() - i,
    {
        let ghost before = words(v@.take(i as int));
        let c = v[i];
        assert(v@.take(i + 1).drop_last() =~= v@.take(i as int));
        assert(v@.take(i + 1).last() == c);
        let ghost after = words(v@.take(i + 1));
        let ghost old_b = b@;
        let ghost old_open = open;
        if white_space(c) {
            assert(after == before);
            if let Some(s) = open {
                b.push((s, i));
                open = None;
            }
        } else {
            match open {
                Some(s) => {
                    assert(v@.take(i + 1)[i - 1] == v@[i - 1]);
                    assert(after == before.update(before.len() - 1, before.last().push(c)));
                    assert(v@.subrange(s as int, i + 1) =~= v@.subrange(s as int, i as int).push(c));
                },
                None => {
                    if i > 0 {
                        assert(v@.take(i + 1)[i - 1] == v@[i - 1]);
                    }
                    assert(after == before.push(seq![c]));
                    assert(v@.subrange(i as int, i + 1) =~= seq![c]);
                    open = Some(i);
                },
            }
        }
        i = i + 1;
        assert(after == words(v@.take(i as int)));
        assert forall|k: int| 0 <= k < b@.len() implies #[trigger] b@[k].0 <= b@[k].1 <= i
            && v@.subrange(b@[k].0 as int, b@[k].1 as int) == words(v@.take(i as int))[k] by {
            if k < old_b.len() {
                assert(b@[k] == old_b[k]);
                assert(after[k] == before[k]);
            } else {
                let s = old_open->0;
                assert(old_open is Some && is_white_space(c));
                assert(b@[k] == (s, (i - 1) as usize));
                assert(after == before);
                assert(before[k] == v@.subrange(s as int, i - 1));
            }
            assert(b@[k].0 <= b@[k].1);
            assert(b@[k].1 <= i);
            assert(v@.subrange(b@[k].0 as int, b@[k].1 as int) == after[k]);
            assert(after[k] == words(v@.take(i as int))[k]);
        }
    }
    assert(v@.take(i as int) =~= v@);
    if let Some(s) = open {
        b.push((s, i));
    }
    b
}

/// Splits `line` at white space and classifies each word (see `Token::parse`).
/// Fails with the error of the first word that no rule accepts.
pub fn tokenize_line<V: Copy>(line: &str, memory: &Memory<V>) -> (r: Result<Vec<Token>, CalcError>)
    requires
        memory.wf(),
    ensures
        r is Ok <==> forall|k: int|
            0 <= k < words(line@).len() ==> word_ok(#[trigger] words(line@)[k], memory@.dom()),
        r matches Ok(ts) ==> ts@.len() == words(line@).len() && forall|k: int|
            0 <= k < ts@.len() ==> classification(
                #[trigger] words(line@)[k],
                memory@.dom(),
                Ok::<Token, CalcError>(ts@[k]),
            ),
        r matches Err(e) ==> exists|k: int|
            0 <= k < words(line@).len() && classification(
                #[trigger] words(line@)[k],
                memory@.dom(),
                Err::<Token, CalcError>(e),
            ) && forall|j: int| 0 <= j < k ==> word_ok(#[trigger] words(line@)[j], memory@.dom()),
{
    let v = chars_of(line);
    let bounds = word_bounds(&v);
    let ghost ws = words(line@);
    let mut tokens: Vec<Token> = Vec::new();
    let mut k: usize = 0;
    while k < bounds.len()
        invariant
            v@ == line@,
            ws == words(line@),
            memory.wf(),
            bounds@.len() == ws.len(),
            forall|j: int|
                0 <= j < bounds@.len() ==> #[trigger] bounds@[j].0 <= bounds@[j].1 <= v@.len()
                    && v@.subrange(bounds@[j].0 as int, bounds@[j].1 as int) == ws[j],
            k <= bounds@.len(),
            tokens@.len() == k,
            forall|j: int|
                0 <= j < k ==> classification(
                    #[trigger] ws[j],
                    memory@.dom(),
                    Ok::<Token, CalcError>(tokens@[j]),
                ),
            forall|j: int| 0 <= j < k ==> word_ok(#[trigger] ws[j], memory@.dom()),
        decreases bounds.len() - k,
    {
        let (lo, hi) = bounds[k];
        let w = line.substring_char(lo, hi);
        let t = Token::parse(w, memory);
        proof {
            lemma_classification_deterministic(ws[k as int], memory@.dom(), t, t);
        }
        match t {
            Ok(t) => {
                tokens.push(t);
            },
            Err(e) => {
                return Err(e);
            },
        }
        k = k + 1;
    }
    Ok(tokens)
}

} // verus!

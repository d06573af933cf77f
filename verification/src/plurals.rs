//! The plural-rule expression language: an abstract syntax tree over the
//! single variable `n`, and a total evaluator for it.
//!
//! A rule is a small C-style arithmetic/boolean expression.  Comparison and
//! logical operators yield the integers 0 and 1, and any nonzero value counts
//! as true.  Arithmetic is unsigned and wraps modulo 2^64, as C unsigned
//! arithmetic does.  So that evaluation is total, a quotient or remainder
//! with a zero divisor is defined to be zero; rules whose text divides by a
//! literal zero are rejected when the rule is compiled, before any lookup.
use vstd::prelude::*;

verus! {

/// A binary operator of the plural-rule grammar.
#[derive(Clone, Copy, Debug, PartialEq, Eq, Structural)]
pub enum BinOp {
    Or,
    And,
    EqCmp,
    NeCmp,
    Lt,
    Le,
    Gt,
    Ge,
    Plus,
    Minus,
    Times,
    Divide,
    Rem,
}

/// An expression of the plural-rule grammar: an integer literal, the
/// variable `n`, a binary operation, or the ternary conditional.
#[derive(Debug)]
pub enum Ast {
    Num(u64),
    Var,
    Binary(BinOp, Box<Ast>, Box<Ast>),
    Cond(Box<Ast>, Box<Ast>, Box<Ast>),
}

/// What one binary operator yields on already-evaluated operands.
pub open spec fn spec_apply_op(op: BinOp, a: u64, b: u64) -> u64 {
    match op {
        BinOp::Or => if a != 0 || b != 0 { 1u64 } else { 0u64 },
        BinOp::And => if a != 0 && b != 0 { 1u64 } else { 0u64 },
        BinOp::EqCmp => if a == b { 1u64 } else { 0u64 },
        BinOp::NeCmp => if a != b { 1u64 } else { 0u64 },
        BinOp::Lt => if a < b { 1u64 } else { 0u64 },
        BinOp::Le => if a <= b { 1u64 } else { 0u64 },
        BinOp::Gt => if a > b { 1u64 } else { 0u64 },
        BinOp::Ge => if a >= b { 1u64 } else { 0u64 },
        BinOp::Plus => a.wrapping_add(b),
        BinOp::Minus => a.wrapping_sub(b),
        BinOp::Times => a.wrapping_mul(b),
        BinOp::Divide => if b == 0 { 0u64 } else { (a as int / b as int) as u64 },
        BinOp::Rem => if b == 0 { 0u64 } else { (a as int % b as int) as u64 },
    }
}

/// The value of an expression at a given count `n`.  Total: every
/// expression evaluates to exactly one value at every count.
pub open spec fn spec_eval(a: Ast, n: u64) -> u64
    decreases a,
{
    match a {
        Ast::Num(v) => v,
        Ast::Var => n,
        Ast::Binary(op, l, r) => spec_apply_op(op, spec_eval(*l, n), spec_eval(*r, n)),
        Ast::Cond(c, t, f) => if spec_eval(*c, n) != 0 {
            spec_eval(*t, n)
        } else {
            spec_eval(*f, n)
        },
    }
}

/// True when no quotient or remainder in the expression has the literal
/// zero as its divisor.  Compilation rejects expressions without this.
pub open spec fn spec_no_zero_divisor(a: Ast) -> bool
    decreases a,
{
    match a {
        Ast::Num(_) => true,
        Ast::Var => true,
        Ast::Binary(op, l, r) => spec_no_zero_divisor(*l) && spec_no_zero_divisor(*r) && ((op
            == BinOp::Divide || op == BinOp::Rem) ==> *r != Ast::Num(0)),
        Ast::Cond(c, t, f) => spec_no_zero_divisor(*c) && spec_no_zero_divisor(*t)
            && spec_no_zero_divisor(*f),
    }
}

fn apply_op(op: BinOp, a: u64, b: u64) -> (r: u64)
    ensures
        r == spec_apply_op(op, a, b),
{
    match op {
        BinOp::Or => if a != 0 || b != 0 { 1u64 } else { 0u64 },
        BinOp::And => if a != 0 && b != 0 { 1u64 } else { 0u64 },
        BinOp::EqCmp => if a == b { 1u64 } else { 0u64 },
        BinOp::NeCmp => if a != b { 1u64 } else { 0u64 },
        BinOp::Lt => if a < b { 1u64 } else { 0u64 },
        BinOp::Le => if a <= b { 1u64 } else { 0u64 },
        BinOp::Gt => if a > b { 1u64 } else { 0u64 },
        BinOp::Ge => if a >= b { 1u64 } else { 0u64 },
        BinOp::Plus => a.wrapping_add(b),
        BinOp::Minus => a.wrapping_sub(b),
        BinOp::Times => a.wrapping_mul(b),
        BinOp::Divide => if b == 0 { 0u64 } else { a / b },
        BinOp::Rem => if b == 0 { 0u64 } else { a % b },
    }
}

/// Evaluates an expression at the count `n`.  There is no precondition:
/// evaluation terminates with a value on every expression and every count.
pub fn eval(a: &Ast, n: u64) -> (r: u64)
    ensures
        r == spec_eval(*a, n),
    decreases *a,
{
    match a {
        Ast::Num(v) => *v,
        Ast::Var => n,
        Ast::Binary(op, l, r) => {
            let lv = eval(l, n);
            let rv = eval(r, n);
            apply_op(*op, lv, rv)
        },
        Ast::Cond(c, t, f) => {
            if eval(c, n) != 0 {
                eval(t, n)
            } else {
                eval(f, n)
            }
        },
    }
}

/// Checks that no quotient or remainder in the expression has the literal
/// zero as its divisor.
pub fn no_zero_divisor(a: &Ast) -> (r: bool)
    ensures
        r == spec_no_zero_divisor(*a),
    decreases *a,
{
    match a {
        Ast::Num(_) => true,
        Ast::Var => true,
        Ast::Binary(op, l, r) => {
            let literal_zero: bool = match &**r {
                Ast::Num(v) => *v == 0,
                _ => false,
            };
            let divides = match op {
                BinOp::Divide => true,
                BinOp::Rem => true,
                _ => false,
            };
            no_zero_divisor(l) && no_zero_divisor(r) && !(divides && literal_zero)
        },
        Ast::Cond(c, t, f) => no_zero_divisor(c) && no_zero_divisor(t) && no_zero_divisor(f),
    }
}

/// The strategy a catalog uses to map a count to a form index: either the
/// built-in rule (`n != 1`, index 0 for a count of one and 1 otherwise) or
/// an expression compiled from the catalog's `Plural-Forms` header.
#[derive(Debug)]
pub enum Resolver {
    Builtin,
    Expr(Ast),
}

impl Resolver {
    /// The form index this resolver yields for the count `n`.
    pub open spec fn spec_resolve(self, n: u64) -> u64 {
        match self {
            Resolver::Builtin => if n == 1 { 0u64 } else { 1u64 },
            Resolver::Expr(a) => spec_eval(a, n),
        }
    }

    /// Maps a count to the index of the translated form that applies.
    /// Total: resolving never fails, on any resolver and any count.
    pub fn resolve(&self, n: u64) -> (r: u64)
        ensures
            r == self.spec_resolve(n),
    {
        match self {
            Resolver::Builtin => if n == 1 { 0 } else { 1 },
            Resolver::Expr(a) => eval(a, n),
        }
    }
}

/// One lexical token of the plural-rule grammar.
#[derive(Clone, Copy, Debug, PartialEq, Eq, Structural)]
pub enum Token {
    Num(u64),
    Var,
    OpenParen,
    CloseParen,
    Question,
    Colon,
    Op(BinOp),
}

pub open spec fn is_space_char(c: char) -> bool {
    c == ' ' || c == '\t' || c == '\n' || c == '\r'
}

pub open spec fn is_digit_char(c: char) -> bool {
    '0' <= c && c <= '9'
}

pub open spec fn is_ident_start_char(c: char) -> bool {
    ('a' <= c && c <= 'z') || ('A' <= c && c <= 'Z') || c == '_'
}

pub open spec fn is_ident_char(c: char) -> bool {
    is_ident_start_char(c) || is_digit_char(c)
}

pub open spec fn digit_val(c: char) -> int {
    c as u32 - 48
}

pub open spec fn prepend_tok(t: Token, rest: Option<Seq<Token>>) -> Option<Seq<Token>> {
    match rest {
        Some(ts) => Some(seq![t] + ts),
        None => None,
    }
}

/// The token sequence of a rule text, or `None` when the text has a
/// character, an identifier other than `n`, or an integer literal that
/// the grammar does not admit.  Tokenizing stops at a terminating `;`.
pub open spec fn spec_tokenize(s: Seq<char>) -> Option<Seq<Token>>
    decreases s.len(), 0int,
{
    if s.len() == 0 {
        Some(Seq::empty())
    } else {
        let c = s[0];
        if is_space_char(c) {
            spec_tokenize(s.drop_first())
        } else if c == ';' {
            Some(Seq::empty())
        } else if is_digit_char(c) {
            spec_tok_num(s.drop_first(), digit_val(c))
        } else if is_ident_start_char(c) {
            spec_tok_ident(s.drop_first(), c == 'n')
        } else if c == '(' {
            prepend_tok(Token::OpenParen, spec_tokenize(s.drop_first()))
        } else if c == ')' {
            prepend_tok(Token::CloseParen, spec_tokenize(s.drop_first()))
        } else if c == '?' {
            prepend_tok(Token::Question, spec_tokenize(s.drop_first()))
        } else if c == ':' {
            prepend_tok(Token::Colon, spec_tokenize(s.drop_first()))
        } else if c == '+' {
            prepend_tok(Token::Op(BinOp::Plus), spec_tokenize(s.drop_first()))
        } else if c == '-' {
            prepend_tok(Token::Op(BinOp::Minus), spec_tokenize(s.drop_first()))
        } else if c == '*' {
            prepend_tok(Token::Op(BinOp::Times), spec_tokenize(s.drop_first()))
        } else if c == '/' {
            prepend_tok(Token::Op(BinOp::Divide), spec_tokenize(s.drop_first()))
        } else if c == '%' {
            prepend_tok(Token::Op(BinOp::Rem), spec_tokenize(s.drop_first()))
        } else if c == '&' {
            if s.len() >= 2 && s[1] == '&' {
                prepend_tok(Token::Op(BinOp::And), spec_tokenize(s.skip(2)))
            } else {
                None
            }
        } else if c == '|' {
            if s.len() >= 2 && s[1] == '|' {
                prepend_tok(Token::Op(BinOp::Or), spec_tokenize(s.skip(2)))
            } else {
                None
            }
        } else if c == '=' {
            if s.len() >= 2 && s[1] == '=' {
                prepend_tok(Token::Op(BinOp::EqCmp), spec_tokenize(s.skip(2)))
            } else {
                None
            }
        } else if c == '!' {
            if s.len() >= 2 && s[1] == '=' {
                prepend_tok(Token::Op(BinOp::NeCmp), spec_tokenize(s.skip(2)))
            } else {
                None
            }
        } else if c == '<' {
            if s.len() >= 2 && s[1] == '=' {
                prepend_tok(Token::Op(BinOp::Le), spec_tokenize(s.skip(2)))
            } else {
                prepend_tok(Token::Op(BinOp::Lt), spec_tokenize(s.drop_first()))
            }
        } else if c == '>' {
            if s.len() >= 2 && s[1] == '=' {
                prepend_tok(Token::Op(BinOp::Ge), spec_tokenize(s.skip(2)))
            } else {
                prepend_tok(Token::Op(BinOp::Gt), spec_tokenize(s.drop_first()))
            }
        } else {
            None
        }
    }
}

/// Continues a decimal literal whose digits so far have the value `acc`;
/// the literal fails when its full value does not fit in 64 bits.
pub open spec fn spec_tok_num(s: Seq<char>, acc: int) -> Option<Seq<Token>>
    decreases s.len(), 1int,
{
    if s.len() > 0 && is_digit_char(s[0]) {
        spec_tok_num(s.drop_first(), acc * 10 + digit_val(s[0]))
    } else if acc > u64::MAX {
        None
    } else {
        prepend_tok(Token::Num(acc as u64), spec_tokenize(s))
    }
}

/// Continues an identifier; only the bare identifier `n` is admitted, so
/// `valid` records whether the characters so far are exactly `n`.
pub open spec fn spec_tok_ident(s: Seq<char>, valid: bool) -> Option<Seq<Token>>
    decreases s.len(), 1int,
{
    if s.len() > 0 && is_ident_char(s[0]) {
        spec_tok_ident(s.drop_first(), false)
    } else if valid {
        prepend_tok(Token::Var, spec_tokenize(s))
    } else {
        None
    }
}

proof fn lemma_tok_num_overflow(s: Seq<char>, acc: int)
    requires
        acc > u64::MAX,
    ensures
        spec_tok_num(s, acc) is None,
    decreases s.len(),
{
    if s.len() > 0 && is_digit_char(s[0]) {
        lemma_tok_num_overflow(s.drop_first(), acc * 10 + digit_val(s[0]));
    }
}

fn tok_at(s: &str, i: usize, out: &mut Vec<Token>, pos: &mut Vec<usize>) -> (r: Result<
    (),
    usize,
>)
    requires
        i <= s@.len(),
        old(out)@.len() == old(pos)@.len(),
        forall|q: int| 0 <= q < old(pos)@.len() ==> old(pos)@[q] <= s@.len(),
    ensures
        final(out)@.len() == final(pos)@.len(),
        forall|q: int| 0 <= q < final(pos)@.len() ==> final(pos)@[q] <= s@.len(),
        match r {
            Ok(_) => spec_tokenize(s@.skip(i as int)) is Some && final(out)@ == old(out)@
                + spec_tokenize(s@.skip(i as int)).unwrap(),
            Err(p) => spec_tokenize(s@.skip(i as int)) is None && p <= s@.len(),
        },
    decreases s@.len() - i, 0int,
{
    let ghost suf = s@.skip(i as int);
    let len: usize = s.unicode_len();
    if i >= len {
        proof {
            assert(suf =~= Seq::<char>::empty());
            assert(out@ =~= out@ + spec_tokenize(suf).unwrap());
        }
        return Ok(());
    }
    let c = s.get_char(i);
    proof {
        assert(suf[0] == s@[i as int]);
        assert(suf.drop_first() =~= s@.skip(i as int + 1));
    }
    if c == ' ' || c == '\t' || c == '\n' || c == '\r' {
        tok_at(s, i + 1, out, pos)
    } else if c == ';' {
        proof {
            assert(out@ =~= out@ + Seq::<Token>::empty());
        }
        Ok(())
    } else if c >= '0' && c <= '9' {
        let d: u32 = (c as u32) - 48;
        tok_num_at(s, i + 1, d as u64, i, out, pos)
    } else if (c >= 'a' && c <= 'z') || (c >= 'A' && c <= 'Z') || c == '_' {
        tok_ident_at(s, i + 1, c == 'n', i, out, pos)
    } else {
        let two: bool = i + 1 < len;
        proof {
            if i + 1 < s@.len() {
                assert(suf[1] == s@[i as int + 1]);
                assert(suf.skip(2) =~= s@.skip(i as int + 2));
            }
        }
        let decided: Option<(Token, usize)> = if c == '(' {
            Some((Token::OpenParen, 1))
        } else if c == ')' {
            Some((Token::CloseParen, 1))
        } else if c == '?' {
            Some((Token::Question, 1))
        } else if c == ':' {
            Some((Token::Colon, 1))
        } else if c == '+' {
            Some((Token::Op(BinOp::Plus), 1))
        } else if c == '-' {
            Some((Token::Op(BinOp::Minus), 1))
        } else if c == '*' {
            Some((Token::Op(BinOp::Times), 1))
        } else if c == '/' {
            Some((Token::Op(BinOp::Divide), 1))
        } else if c == '%' {
            Some((Token::Op(BinOp::Rem), 1))
        } else if c == '&' {
            if two && s.get_char(i + 1) == '&' {
                Some((Token::Op(BinOp::And), 2))
            } else {
                None
            }
        } else if c == '|' {
            if two && s.get_char(i + 1) == '|' {
                Some((Token::Op(BinOp::Or), 2))
            } else {
                None
            }
        } else if c == '=' {
            if two && s.get_char(i + 1) == '=' {
                Some((Token::Op(BinOp::EqCmp), 2))
            } else {
                None
            }
        } else if c == '!' {
            if two && s.get_char(i + 1) == '=' {
                Some((Token::Op(BinOp::NeCmp), 2))
            } else {
                None
            }
        } else if c == '<' {
            if two && s.get_char(i + 1) == '=' {
                Some((Token::Op(BinOp::Le), 2))
            } else {
                Some((Token::Op(BinOp::Lt), 1))
            }
        } else if c == '>' {
            if two && s.get_char(i + 1) == '=' {
                Some((Token::Op(BinOp::Ge), 2))
            } else {
                Some((Token::Op(BinOp::Gt), 1))
            }
        } else {
            None
        };
        match decided {
            None => Err(i),
            Some((t, adv)) => {
                proof {
                    assert(spec_tokenize(suf) == prepend_tok(
                        t,
                        spec_tokenize(s@.skip(i as int + adv as int)),
                    ));
                }
                out.push(t);
                pos.push(i);
                match tok_at(s, i + adv, out, pos) {
                    Ok(()) => {
                        proof {
                            let rest = spec_tokenize(s@.skip(i as int + adv as int)).unwrap();
                            assert(out@ =~= old(out)@ + (seq![t] + rest));
                        }
                        Ok(())
                    },
                    Err(p) => Err(p),
                }
            },
        }
    }
}

fn tok_num_at(
    s: &str,
    i: usize,
    acc: u64,
    start: usize,
    out: &mut Vec<Token>,
    pos: &mut Vec<usize>,
) -> (r: Result<(), usize>)
    requires
        i <= s@.len(),
        start <= s@.len(),
        old(out)@.len() == old(pos)@.len(),
        forall|q: int| 0 <= q < old(pos)@.len() ==> old(pos)@[q] <= s@.len(),
    ensures
        final(out)@.len() == final(pos)@.len(),
        forall|q: int| 0 <= q < final(pos)@.len() ==> final(pos)@[q] <= s@.len(),
        match r {
            Ok(_) => spec_tok_num(s@.skip(i as int), acc as int) is Some && final(out)@ == old(
                out,
            )@ + spec_tok_num(s@.skip(i as int), acc as int).unwrap(),
            Err(p) => spec_tok_num(s@.skip(i as int), acc as int) is None && p <= s@.len(),
        },
    decreases s@.len() - i, 1int,
{
    let ghost suf = s@.skip(i as int);
    let len: usize = s.unicode_len();
    if i < len {
        let c = s.get_char(i);
        proof {
            assert(suf[0] == s@[i as int]);
            assert(suf.drop_first() =~= s@.skip(i as int + 1));
        }
        if c >= '0' && c <= '9' {
            let d: u32 = (c as u32) - 48;
            match acc.checked_mul(10) {
                Some(m) => {
                    match m.checked_add(d as u64) {
                        Some(acc2) => {
                            return tok_num_at(s, i + 1, acc2, start, out, pos);
                        },
                        None => {
                            proof {
                                lemma_tok_num_overflow(
                                    suf.drop_first(),
                                    acc as int * 10 + digit_val(suf[0]),
                                );
                            }
                            return Err(start);
                        },
                    }
                },
                None => {
                    proof {
                        lemma_tok_num_overflow(
                            suf.drop_first(),
                            acc as int * 10 + digit_val(suf[0]),
                        );
                    }
                    return Err(start);
                },
            }
        }
    }
    proof {
        if suf.len() > 0 {
            assert(suf[0] == s@[i as int]);
        }
    }
    out.push(Token::Num(acc));
    pos.push(start);
    match tok_at(s, i, out, pos) {
        Ok(()) => {
            proof {
                let rest = spec_tokenize(suf).unwrap();
                assert(out@ =~= old(out)@ + (seq![Token::Num(acc)] + rest));
            }
            Ok(())
        },
        Err(p) => Err(p),
    }
}

fn tok_ident_at(
    s: &str,
    i: usize,
    valid: bool,
    start: usize,
    out: &mut Vec<Token>,
    pos: &mut Vec<usize>,
) -> (r: Result<(), usize>)
    requires
        i <= s@.len(),
        start <= s@.len(),
        old(out)@.len() == old(pos)@.len(),
        forall|q: int| 0 <= q < old(pos)@.len() ==> old(pos)@[q] <= s@.len(),
    ensures
        final(out)@.len() == final(pos)@.len(),
        forall|q: int| 0 <= q < final(pos)@.len() ==> final(pos)@[q] <= s@.len(),
        match r {
            Ok(_) => spec_tok_ident(s@.skip(i as int), valid) is Some && final(out)@ == old(out)@
                + spec_tok_ident(s@.skip(i as int), valid).unwrap(),
            Err(p) => spec_tok_ident(s@.skip(i as int), valid) is None && p <= s@.len(),
        },
    decreases s@.len() - i, 1int,
{
    let ghost suf = s@.skip(i as int);
    let len: usize = s.unicode_len();
    if i < len {
        let c = s.get_char(i);
        proof {
            assert(suf[0] == s@[i as int]);
            assert(suf.drop_first() =~= s@.skip(i as int + 1));
        }
        if (c >= 'a' && c <= 'z') || (c >= 'A' && c <= 'Z') || (c >= '0' && c <= '9') || c == '_' {
            return tok_ident_at(s, i + 1, false, start, out, pos);
        }
    }
    proof {
        if suf.len() > 0 {
            assert(suf[0] == s@[i as int]);
        }
    }
    if valid {
        out.push(Token::Var);
        pos.push(start);
        match tok_at(s, i, out, pos) {
            Ok(()) => {
                proof {
                    let rest = spec_tokenize(suf).unwrap();
                    assert(out@ =~= old(out)@ + (seq![Token::Var] + rest));
                }
                Ok(())
            },
            Err(p) => Err(p),
        }
    } else {
        Err(start)
    }
}

fn tokenize(s: &str) -> (r: Result<(Vec<Token>, Vec<usize>), crate::parser::Error>)
    ensures
        match r {
            Ok(tp) => spec_tokenize(s@) == Some(tp.0@) && tp.1@.len() == tp.0@.len() && (forall|
                q: int,
            | 0 <= q < tp.1@.len() ==> tp.1@[q] <= s@.len()),
            Err(e) => spec_tokenize(s@) is None && (e matches crate::parser::Error::SyntaxError {
                position: _,
                token: _,
            }),
        },
{
    let mut out: Vec<Token> = Vec::new();
    let mut pos: Vec<usize> = Vec::new();
    match tok_at(s, 0, &mut out, &mut pos) {
        Ok(()) => {
            proof {
                assert(s@.skip(0) =~= s@);
                let rest = spec_tokenize(s@).unwrap();
                assert(Seq::<Token>::empty() + rest =~= rest);
                assert(spec_tokenize(s@) == Some(rest));
            }
            Ok((out, pos))
        },
        Err(p) => {
            proof {
                assert(s@.skip(0) =~= s@);
            }
            Err(make_syntax_error(s, p))
        },
    }
}

fn make_syntax_error(s: &str, p: usize) -> (e: crate::parser::Error)
    requires
        p <= s@.len(),
    ensures
        e matches crate::parser::Error::SyntaxError { position: _, token: _ },
{
    let len: usize = s.unicode_len();
    let end: usize = if p < len {
        p + 1
    } else {
        len
    };
    let token = s.substring_char(p, end).to_owned();
    crate::parser::Error::SyntaxError { position: p, token }
}

/// Precedence of a binary operator; higher binds tighter.  The ternary
/// conditional sits below them all, and every binary operator is
/// left-associative.
pub open spec fn op_prec(op: BinOp) -> int {
    match op {
        BinOp::Or => 1,
        BinOp::And => 2,
        BinOp::EqCmp => 3,
        BinOp::NeCmp => 3,
        BinOp::Lt => 4,
        BinOp::Le => 4,
        BinOp::Gt => 4,
        BinOp::Ge => 4,
        BinOp::Plus => 5,
        BinOp::Minus => 5,
        BinOp::Times => 6,
        BinOp::Divide => 6,
        BinOp::Rem => 6,
    }
}

fn prec(op: BinOp) -> (r: u32)
    ensures
        r as int == op_prec(op),
        1 <= r <= 6,
{
    match op {
        BinOp::Or => 1,
        BinOp::And => 2,
        BinOp::EqCmp => 3,
        BinOp::NeCmp => 3,
        BinOp::Lt => 4,
        BinOp::Le => 4,
        BinOp::Gt => 4,
        BinOp::Ge => 4,
        BinOp::Plus => 5,
        BinOp::Minus => 5,
        BinOp::Times => 6,
        BinOp::Divide => 6,
        BinOp::Rem => 6,
    }
}

/// A primary expression: an integer literal, the variable `n`, or a
/// parenthesized expression.  Yields the parsed tree and the position
/// just past it.  The position bounds checked along the way only restate
/// that parsing consumes at least one token and stays inside the stream.
pub open spec fn spec_parse_primary(ts: Seq<Token>, i: int) -> Option<(Ast, int)>
    decreases ts.len() - i, 0int,
{
    if 0 <= i < ts.len() {
        match ts[i] {
            Token::Num(v) => Some((Ast::Num(v), i + 1)),
            Token::Var => Some((Ast::Var, i + 1)),
            Token::OpenParen => match spec_parse_expr(ts, i + 1) {
                Some((a, j)) => if i < j < ts.len() && ts[j] == Token::CloseParen {
                    Some((a, j + 1))
                } else {
                    None
                },
                None => None,
            },
            _ => None,
        }
    } else {
        None
    }
}

/// A run of binary operators of precedence at least `minp`, climbing by
/// precedence: left-associative, each tighter operator parsed before a
/// looser one continues.
pub open spec fn spec_parse_more(ts: Seq<Token>, lhs: Ast, j: int, minp: int) -> Option<
    (Ast, int),
>
    decreases ts.len() - j, 2int,
{
    if 0 <= j < ts.len() {
        match ts[j] {
            Token::Op(op) => if op_prec(op) >= minp {
                match spec_parse_binary(ts, j + 1, op_prec(op) + 1) {
                    Some((rhs, k)) => if j < k <= ts.len() {
                        spec_parse_more(
                            ts,
                            Ast::Binary(op, Box::new(lhs), Box::new(rhs)),
                            k,
                            minp,
                        )
                    } else {
                        None
                    },
                    None => None,
                }
            } else {
                Some((lhs, j))
            },
            _ => Some((lhs, j)),
        }
    } else {
        Some((lhs, j))
    }
}

/// A binary-operator expression with operators of precedence at least
/// `minp`.
pub open spec fn spec_parse_binary(ts: Seq<Token>, i: int, minp: int) -> Option<(Ast, int)>
    decreases ts.len() - i, 1int,
{
    match spec_parse_primary(ts, i) {
        Some((lhs, j)) => if i < j <= ts.len() {
            spec_parse_more(ts, lhs, j, minp)
        } else {
            None
        },
        None => None,
    }
}

/// A full expression: a binary expression, optionally completed into the
/// right-associative ternary conditional.
pub open spec fn spec_parse_expr(ts: Seq<Token>, i: int) -> Option<(Ast, int)>
    decreases ts.len() - i, 3int,
{
    match spec_parse_binary(ts, i, 1) {
        Some((c, j)) => if i < j <= ts.len() {
            if j < ts.len() && ts[j] == Token::Question {
                match spec_parse_expr(ts, j + 1) {
                    Some((t, k)) => if j < k <= ts.len() && k < ts.len() && ts[k]
                        == Token::Colon {
                        match spec_parse_expr(ts, k + 1) {
                            Some((f, m)) => Some(
                                (Ast::Cond(Box::new(c), Box::new(t), Box::new(f)), m),
                            ),
                            None => None,
                        }
                    } else {
                        None
                    },
                    None => None,
                }
            } else {
                Some((c, j))
            }
        } else {
            None
        },
        None => None,
    }
}

/// The expression tree of a whole token stream; trailing tokens are a
/// syntax error.
pub open spec fn spec_parse(ts: Seq<Token>) -> Option<Ast> {
    match spec_parse_expr(ts, 0) {
        Some((a, j)) => if j == ts.len() {
            Some(a)
        } else {
            None
        },
        None => None,
    }
}

/// The expression tree of a rule text: tokenize, then parse.
pub open spec fn spec_compile(s: Seq<char>) -> Option<Ast> {
    match spec_tokenize(s) {
        Some(ts) => spec_parse(ts),
        None => None,
    }
}

fn parse_primary_at(ts: &Vec<Token>, i: usize) -> (r: Result<(Ast, usize), usize>)
    requires
        i <= ts@.len(),
    ensures
        match r {
            Ok((a, j)) => spec_parse_primary(ts@, i as int) == Some((a, j as int)) && i < j
                <= ts@.len(),
            Err(p) => spec_parse_primary(ts@, i as int) is None && p <= ts@.len(),
        },
    decreases ts@.len() - i, 0int,
{
    if i < ts.len() {
        let t = ts[i];
        match t {
            Token::Num(v) => Ok((Ast::Num(v), i + 1)),
            Token::Var => Ok((Ast::Var, i + 1)),
            Token::OpenParen => {
                match parse_expr_at(ts, i + 1) {
                    Ok((a, j)) => {
                        if j < ts.len() && ts[j] == Token::CloseParen {
                            Ok((a, j + 1))
                        } else {
                            Err(j)
                        }
                    },
                    Err(p) => Err(p),
                }
            },
            _ => Err(i),
        }
    } else {
        Err(i)
    }
}

fn parse_more_at(ts: &Vec<Token>, lhs: Ast, j: usize, minp: u32) -> (r: Result<
    (Ast, usize),
    usize,
>)
    requires
        j <= ts@.len(),
    ensures
        match r {
            Ok((a, k)) => spec_parse_more(ts@, lhs, j as int, minp as int) == Some(
                (a, k as int),
            ) && j <= k <= ts@.len(),
            Err(p) => spec_parse_more(ts@, lhs, j as int, minp as int) is None && p <= ts@.len(),
        },
    decreases ts@.len() - j, 2int,
{
    if j < ts.len() {
        let t = ts[j];
        match t {
            Token::Op(op) => {
                if prec(op) >= minp {
                    match parse_binary_at(ts, j + 1, prec(op) + 1) {
                        Ok((rhs, k)) => parse_more_at(
                            ts,
                            Ast::Binary(op, Box::new(lhs), Box::new(rhs)),
                            k,
                            minp,
                        ),
                        Err(p) => Err(p),
                    }
                } else {
                    Ok((lhs, j))
                }
            },
            _ => Ok((lhs, j)),
        }
    } else {
        Ok((lhs, j))
    }
}

fn parse_binary_at(ts: &Vec<Token>, i: usize, minp: u32) -> (r: Result<(Ast, usize), usize>)
    requires
        i <= ts@.len(),
    ensures
        match r {
            Ok((a, j)) => spec_parse_binary(ts@, i as int, minp as int) == Some((a, j as int))
                && i < j <= ts@.len(),
            Err(p) => spec_parse_binary(ts@, i as int, minp as int) is None && p <= ts@.len(),
        },
    decreases ts@.len() - i, 1int,
{
    match parse_primary_at(ts, i) {
        Ok((lhs, j)) => parse_more_at(ts, lhs, j, minp),
        Err(p) => Err(p),
    }
}

fn parse_expr_at(ts: &Vec<Token>, i: usize) -> (r: Result<(Ast, usize), usize>)
    requires
        i <= ts@.len(),
    ensures
        match r {
            Ok((a, j)) => spec_parse_expr(ts@, i as int) == Some((a, j as int)) && i < j
                <= ts@.len(),
            Err(p) => spec_parse_expr(ts@, i as int) is None && p <= ts@.len(),
        },
    decreases ts@.len() - i, 3int,
{
    match parse_binary_at(ts, i, 1) {
        Ok((c, j)) => {
            if j < ts.len() && ts[j] == Token::Question {
                match parse_expr_at(ts, j + 1) {
                    Ok((thenb, k)) => {
                        if k < ts.len() && ts[k] == Token::Colon {
                            match parse_expr_at(ts, k + 1) {
                                Ok((elseb, m)) => Ok(
                                    (
                                        Ast::Cond(
                                            Box::new(c),
                                            Box::new(thenb),
                                            Box::new(elseb),
                                        ),
                                        m,
                                    ),
                                ),
                                Err(p) => Err(p),
                            }
                        } else {
                            Err(k)
                        }
                    },
                    Err(p) => Err(p),
                }
            } else {
                Ok((c, j))
            }
        },
        Err(p) => Err(p),
    }
}

/// Compiles a plural-rule text into an expression tree.  Succeeds exactly
/// on the texts the grammar admits whose quotients and remainders never
/// have the literal zero as divisor; a malformed text is a syntax error
/// and a literal zero divisor a division-by-zero error, both reported
/// here at construction time, never at lookup time.
pub fn compile_rule(text: &str) -> (r: Result<Ast, crate::parser::Error>)
    ensures
        ({
            let sc = spec_compile(text@);
            &&& (sc is Some && spec_no_zero_divisor(sc.unwrap())) ==> r == Ok::<
                Ast,
                crate::parser::Error,
            >(sc.unwrap())
            &&& (sc is Some && !spec_no_zero_divisor(sc.unwrap())) ==> r == Err::<
                Ast,
                crate::parser::Error,
            >(crate::parser::Error::DivisionByZero)
            &&& sc is None ==> (r matches Err(e) && (
            e matches crate::parser::Error::SyntaxError { position: _, token: _ }))
        }),
{
    match tokenize(text) {
        Err(e) => Err(e),
        Ok((toks, pos)) => {
            match parse_expr_at(&toks, 0) {
                Err(p) => {
                    let cp: usize = if p < pos.len() {
                        pos[p]
                    } else {
                        text.unicode_len()
                    };
                    Err(make_syntax_error(text, cp))
                },
                Ok((a, j)) => {
                    if j < toks.len() {
                        let cp: usize = if j < pos.len() {
                            pos[j]
                        } else {
                            text.unicode_len()
                        };
                        Err(make_syntax_error(text, cp))
                    } else if no_zero_divisor(&a) {
                        Ok(a)
                    } else {
                        Err(crate::parser::Error::DivisionByZero)
                    }
                },
            }
        },
    }
}

} // verus!

//! Evaluation of constant expressions in `#if` directives.
use crate::errors::{simple_error, DiagnosticSeverity, PResult, Report};
use crate::expr::{empty_location, expr_view, node, ExprView, Expression, InfixOperator, PrefixOperator};
use crate::parser::{all_digits, digit_of, digit_value, IntConstant};
use crate::prelexer::str_chars;
use crate::spanned::{Location, Spanned};
use crate::strings::str_eq;
use vstd::prelude::*;

verus! {

/// The value of a constant expression.
#[derive(Debug, Clone, Copy)]
pub enum Value {
    Int(i64),
}

pub open spec fn truncated_div(a: int, b: int) -> int {
    let q = (if a < 0 { -a } else { a }) / (if b < 0 { -b } else { b });
    if (a < 0) != (b < 0) { -q } else { q }
}

/// The number that the digits `s` give in base `base`.
pub open spec fn digits_value(s: Seq<char>, base: int) -> int
    decreases s.len(),
{
    if s.len() == 0 {
        0
    } else {
        digits_value(s.drop_last(), base) * base + match digit_value(s.last()) {
            Some(v) => v as int,
            None => 0,
        }
    }
}

/// The value of an integer constant: its digits read in its base (which must lie in
/// `2..=36`), when there is at least one digit, every digit belongs to the base and
/// the number fits in an `i64`.
pub open spec fn const_value(s: Seq<char>, base: u32) -> Option<i64> {
    if 2 <= base <= 36 && s.len() > 0 && all_digits(s, base) && digits_value(s, base as int) <= i64::MAX {
        Some(digits_value(s, base as int) as i64)
    } else {
        None
    }
}

pub proof fn lemma_digits_value_nonneg(s: Seq<char>, base: int)
    requires
        base >= 1,
    ensures
        digits_value(s, base) >= 0,
    decreases s.len(),
{
    if s.len() > 0 {
        lemma_digits_value_nonneg(s.drop_last(), base);
        let x = digits_value(s.drop_last(), base);
        assert(x * base >= 0) by (nonlinear_arith)
            requires
                x >= 0,
                base >= 1,
        ;
    }
}

/// A prefix of the digits gives no more than all of them.
pub proof fn lemma_digits_value_prefix(s: Seq<char>, base: int, k: int)
    requires
        base >= 1,
        0 <= k <= s.len(),
    ensures
        digits_value(s.take(k), base) <= digits_value(s, base),
    decreases s.len(),
{
    if k < s.len() {
        lemma_digits_value_prefix(s.drop_last(), base, k);
        assert(s.drop_last().take(k) =~= s.take(k));
        lemma_digits_value_nonneg(s.drop_last(), base);
        let x = digits_value(s.drop_last(), base);
        assert(x * base >= x) by (nonlinear_arith)
            requires
                x >= 0,
                base >= 1,
        ;
    } else {
        assert(s.take(k) =~= s);
    }
}

/// The size of an expression, for termination.
pub open spec fn expr_size(e: Spanned<ExprView>) -> nat
    decreases e,
{
    match e.value {
        ExprView::Parenthesized(x) => 1 + expr_size(*x),
        ExprView::BinOp(_, l, r) => 1 + expr_size(*l) + expr_size(*r),
        ExprView::UnaryOp(_, x) => 1 + expr_size(*x),
        ExprView::PostfixOp(_, x) => 1 + expr_size(*x),
        ExprView::Subscript(a, i) => 1 + expr_size(*a) + expr_size(*i),
        ExprView::Ternary(c, t, f) => 1 + expr_size(*c) + expr_size(*t) + expr_size(*f),
        _ => 1,
    }
}

/// `1` for `true`, `0` for `false`.
pub open spec fn flag(b: bool) -> i64 {
    if b {
        1
    } else {
        0
    }
}

/// An arithmetic or comparison operator applied to two values; `None` on overflow, division
/// by zero, a shift by less than 0 or more than 63 bits, and for every other operator.
pub open spec fn arith(op: InfixOperator, a: i64, b: i64) -> Option<i64> {
    match op {
        InfixOperator::Add => if i64::MIN <= a + b <= i64::MAX {
            Some((a + b) as i64)
        } else {
            None
        },
        InfixOperator::Subtract => if i64::MIN <= a - b <= i64::MAX {
            Some((a - b) as i64)
        } else {
            None
        },
        InfixOperator::Multiply => if i64::MIN <= a * b <= i64::MAX {
            Some((a * b) as i64)
        } else {
            None
        },
        InfixOperator::Divide => if b != 0 && !(a == i64::MIN && b == -1) {
            Some(truncated_div(a as int, b as int) as i64)
        } else {
            None
        },
        InfixOperator::Less => Some(flag(a < b)),
        InfixOperator::Greater => Some(flag(a > b)),
        InfixOperator::LessEqual => Some(flag(a <= b)),
        InfixOperator::GreaterEqual => Some(flag(a >= b)),
        InfixOperator::Equal => Some(flag(a == b)),
        InfixOperator::NotEqual => Some(flag(a != b)),
        InfixOperator::BitwiseShiftLeft => if 0 <= b < 64 {
            Some(a << (b as u64))
        } else {
            None
        },
        InfixOperator::BitwiseShiftRight => if 0 <= b < 64 {
            Some(a >> (b as u64))
        } else {
            None
        },
        _ => None,
    }
}

/// The expression `l op r`, with the operator at `op_location` and the whole at `location`.
pub open spec fn bin_expr(
    op: InfixOperator,
    op_location: Location,
    location: Location,
    l: Spanned<ExprView>,
    r: Spanned<ExprView>,
) -> Spanned<ExprView> {
    Spanned {
        value: ExprView::BinOp(Spanned { value: op, location: op_location }, Box::new(l), Box::new(r)),
        location,
    }
}

/// A comparison of two operands with values `a` and `b` is `1` when it holds of `a` and `b`
/// as integers and `0` when it does not; swapping the operands of `<` gives `>` (and of `<=`
/// gives `>=`), and each comparison and its negation add up to `1`.
pub proof fn law_comparisons(op_location: Location, location: Location, l: Spanned<ExprView>, r: Spanned<ExprView>)
    requires
        eval(l) is Some,
        eval(r) is Some,
    ensures
        ({
            let a = eval(l)->0;
            let b = eval(r)->0;
            &&& eval(bin_expr(InfixOperator::Less, op_location, location, l, r)) == Some(if a < b { 1i64 } else { 0i64 })
            &&& eval(bin_expr(InfixOperator::LessEqual, op_location, location, l, r)) == Some(if a <= b { 1i64 } else { 0i64 })
            &&& eval(bin_expr(InfixOperator::Greater, op_location, location, l, r)) == Some(if a > b { 1i64 } else { 0i64 })
            &&& eval(bin_expr(InfixOperator::GreaterEqual, op_location, location, l, r)) == Some(if a >= b { 1i64 } else { 0i64 })
            &&& eval(bin_expr(InfixOperator::Equal, op_location, location, l, r)) == Some(if a == b { 1i64 } else { 0i64 })
            &&& eval(bin_expr(InfixOperator::NotEqual, op_location, location, l, r)) == Some(if a != b { 1i64 } else { 0i64 })
        }),
        eval(bin_expr(InfixOperator::Less, op_location, location, l, r)) == eval(
            bin_expr(InfixOperator::Greater, op_location, location, r, l),
        ),
        eval(bin_expr(InfixOperator::LessEqual, op_location, location, l, r)) == eval(
            bin_expr(InfixOperator::GreaterEqual, op_location, location, r, l),
        ),
        eval(bin_expr(InfixOperator::Less, op_location, location, l, r))->0 + eval(
            bin_expr(InfixOperator::GreaterEqual, op_location, location, l, r),
        )->0 == 1,
        eval(bin_expr(InfixOperator::Greater, op_location, location, l, r))->0 + eval(
            bin_expr(InfixOperator::LessEqual, op_location, location, l, r),
        )->0 == 1,
        eval(bin_expr(InfixOperator::Equal, op_location, location, l, r))->0 + eval(
            bin_expr(InfixOperator::NotEqual, op_location, location, l, r),
        )->0 == 1,
{
}

/// `&&` is `1` exactly when both operands are not `0`, and `||` exactly when one of them is
/// not; each is `0` otherwise.
pub proof fn law_logical(op_location: Location, location: Location, l: Spanned<ExprView>, r: Spanned<ExprView>)
    requires
        eval(l) is Some,
        eval(r) is Some,
    ensures
        ({
            let a = eval(l)->0;
            let b = eval(r)->0;
            &&& eval(bin_expr(InfixOperator::LogicalAnd, op_location, location, l, r)) == Some(
                if a != 0 && b != 0 { 1i64 } else { 0i64 },
            )
            &&& eval(bin_expr(InfixOperator::LogicalOr, op_location, location, l, r)) == Some(
                if a != 0 || b != 0 { 1i64 } else { 0i64 },
            )
        }),
{
}

/// Sums, differences and products are those of the integers, where they fit in 64 bits;
/// taking away what was added gives the first operand back.
pub proof fn law_arithmetic(op_location: Location, location: Location, l: Spanned<ExprView>, r: Spanned<ExprView>)
    requires
        eval(l) is Some,
        eval(r) is Some,
    ensures
        ({
            let a = eval(l)->0;
            let b = eval(r)->0;
            &&& i64::MIN <= a + b <= i64::MAX ==> eval(bin_expr(InfixOperator::Add, op_location, location, l, r)) == Some(
                (a + b) as i64,
            )
            &&& i64::MIN <= a - b <= i64::MAX ==> eval(bin_expr(InfixOperator::Subtract, op_location, location, l, r))
                == Some((a - b) as i64)
            &&& i64::MIN <= a * b <= i64::MAX ==> eval(bin_expr(InfixOperator::Multiply, op_location, location, l, r))
                == Some((a * b) as i64)
            &&& eval(bin_expr(InfixOperator::Add, op_location, location, l, r)) matches Some(s) ==> s - b == a
        }),
{
}

/// Division rounds toward zero: the quotient `q` of `a / b` leaves `a - q * b`, which is
/// smaller than `b` in size and has the sign of `a` (or is `0`); dividing by `0` has no
/// value.
pub proof fn law_division(op_location: Location, location: Location, l: Spanned<ExprView>, r: Spanned<ExprView>)
    requires
        eval(l) is Some,
        eval(r) is Some,
    ensures
        ({
            let a = eval(l)->0 as int;
            let b = eval(r)->0 as int;
            let e = eval(bin_expr(InfixOperator::Divide, op_location, location, l, r));
            &&& b == 0 ==> e is None
            &&& b != 0 && !(a == i64::MIN && b == -1) ==> (e is Some && {
                let m = a - e->0 * b;
                &&& (if m < 0 { -m } else { m }) < (if b < 0 { -b } else { b })
                &&& m == 0 || (m < 0) == (a < 0)
            })
        }),
{
    let a = eval(l)->0 as int;
    let b = eval(r)->0 as int;
    if b != 0 && !(a == i64::MIN && b == -1) {
        law_divide_remainder(a, b);
        let q = truncated_div(a, b);
        let ma: int = if a < 0 { -a } else { a };
        let mb: int = if b < 0 { -b } else { b };
        vstd::arithmetic::div_mod::lemma_fundamental_div_mod(ma, mb);
        assert(0 <= ma / mb <= ma) by (nonlinear_arith)
            requires
                ma >= 0,
                mb >= 1,
        ;
        if mb >= 2 {
            assert(2 * (ma / mb) <= ma) by (nonlinear_arith)
                requires
                    ma >= 0,
                    mb >= 2,
            ;
        }
        assert(i64::MIN <= q <= i64::MAX);
    }
}

/// `-x` is the negation of the value of `x`, where it fits; `!x` is `1` for `0` and `0`
/// for `1`.
pub proof fn law_unary(op_location: Location, location: Location, x: Spanned<ExprView>)
    requires
        eval(x) is Some,
    ensures
        ({
            let a = eval(x)->0;
            let neg = Spanned {
                value: ExprView::UnaryOp(Spanned { value: PrefixOperator::Minus, location: op_location }, Box::new(x)),
                location,
            };
            let not = Spanned {
                value: ExprView::UnaryOp(Spanned { value: PrefixOperator::LogicalNot, location: op_location }, Box::new(x)),
                location,
            };
            &&& a != i64::MIN ==> eval(neg) == Some((-a) as i64)
            &&& a == 0 ==> eval(not) == Some(1i64)
            &&& a == 1 ==> eval(not) == Some(0i64)
        }),
{
}

/// `c ? t : f` is the value of `t` when `c` is not `0` and that of `f` when it is.
pub proof fn law_conditional(location: Location, c: Spanned<ExprView>, t: Spanned<ExprView>, f: Spanned<ExprView>)
    requires
        eval(c) is Some,
    ensures
        ({
            let e = Spanned { value: ExprView::Ternary(Box::new(c), Box::new(t), Box::new(f)), location };
            &&& eval(c)->0 != 0 ==> eval(e) == eval(t)
            &&& eval(c)->0 == 0 ==> eval(e) == eval(f)
        }),
{
}

/// The value of a constant expression, `None` when it has none.  An identifier other
/// than `true` is an undefined macro and counts as `0`; `&&` and `||` do not look at
/// their right side when the left one decides.
pub open spec fn eval(e: Spanned<ExprView>) -> Option<i64>
    decreases e,
{
    match e.value {
        ExprView::Identifier(id) => if id.value == "true"@ {
            Some(1)
        } else {
            Some(0)
        },
        ExprView::IntConstant(c) => const_value(c.value.0, c.value.1),
        ExprView::StringLiteral(_) => None,
        ExprView::Parenthesized(x) => eval(*x),
        ExprView::BinOp(op, l, r) => match op.value {
            InfixOperator::LogicalAnd => match eval(*l) {
                None => None,
                Some(a) => if a == 0 {
                    Some(0)
                } else {
                    match eval(*r) {
                        None => None,
                        Some(b) => Some(flag(b != 0)),
                    }
                },
            },
            InfixOperator::LogicalOr => match eval(*l) {
                None => None,
                Some(a) => if a != 0 {
                    Some(1)
                } else {
                    match eval(*r) {
                        None => None,
                        Some(b) => Some(flag(b != 0)),
                    }
                },
            },
            _ => match (eval(*l), eval(*r)) {
                (Some(a), Some(b)) => arith(op.value, a, b),
                _ => None,
            },
        },
        ExprView::UnaryOp(op, x) => match eval(*x) {
            None => None,
            Some(v) => match op.value {
                PrefixOperator::Plus => Some(v),
                PrefixOperator::Minus => if v != i64::MIN {
                    Some((-v) as i64)
                } else {
                    None
                },
                PrefixOperator::LogicalNot => if v == 0 {
                    Some(1)
                } else if v == 1 {
                    Some(0)
                } else {
                    None
                },
                _ => None,
            },
        },
        ExprView::Ternary(c, t, f) => match eval(*c) {
            None => None,
            Some(v) => if v != 0 {
                eval(*t)
            } else {
                eval(*f)
            },
        },
        ExprView::Null => Some(0),
        _ => None,
    }
}

/// Evaluates the constant expressions of `#if` and `#elif`.
#[derive(Debug)]
pub struct ConstantEvalutator {}

impl ConstantEvalutator {
    /// An evaluator; it holds no state.
    pub fn new() -> (r: Self) {
        ConstantEvalutator {  }
    }

    /// The value of `expr`; an error when it has none (see `eval`).
    pub fn evaluate(&mut self, expr: &Spanned<Expression>) -> (r: PResult<Value>)
        ensures
            match eval(expr_view(*expr)) {
                Some(v) => r == Ok::<Value, Report>(Value::Int(v)),
                None => r is Err,
            },
            expr.value is StringLiteral ==> {
                &&& r matches Err(e)
                &&& r->Err_0.labels@.len() == 1
                &&& r->Err_0.labels@[0].location == expr.value->StringLiteral_0.location
                &&& r->Err_0.labels@[0].message@ == "not constant"@
            },
        decreases expr_size(expr_view(*expr)), 1int,
    {
        match &expr.value {
            Expression::Identifier(identifier) => {
                if str_eq(identifier.value.as_str(), "true") {
                    proof {
                        reveal_strlit("true");
                    }
                    Ok(Value::Int(1))
                } else if str_eq(identifier.value.as_str(), "false") {
                    proof {
                        reveal_strlit("true");
                        reveal_strlit("false");
                    }
                    Ok(Value::Int(0))
                } else {
                    // undefined macros expand to 0, every identifier left here is an undefined macro
                    proof {
                        reveal_strlit("true");
                    }
                    Ok(Value::Int(0))
                }
            },
            Expression::IntConstant(constant) => self.constant(constant),
            Expression::StringLiteral(string) => Self::not_const(string),
            Expression::Parenthesized(inner) => self.evaluate(inner),
            Expression::BinOp(op, lhs, rhs) => self.bin_op(op, lhs, rhs),
            Expression::UnaryOp(op, inner) => self.un_op(op, inner),
            Expression::Ternary(cond, then, elze) => self.ternary(cond, then, elze),
            Expression::Null => Ok(Value::Int(0)),
            _ => Err(simple_error(&expr.location, "not supported in a constant expression")),
        }
    }

    /// The error for something that is not a constant: a report at the place of `x`.
    fn not_const<T>(x: &Spanned<T>) -> (r: PResult<Value>)
        ensures
            r matches Err(e) && e.severity == DiagnosticSeverity::Error && e.labels@.len() == 1
                && e.labels@[0].location == x.location && e.labels@[0].message@ == "not constant"@,
    {
        Err(simple_error(&x.location, "not constant"))
    }

    /// The value of an integer constant (see `const_value`).
    fn constant(&mut self, constant: &Spanned<IntConstant>) -> (r: PResult<Value>)
        ensures
            match const_value(constant.value.number@, constant.value.base) {
                Some(v) => r == Ok::<Value, Report>(Value::Int(v)),
                None => r is Err,
            },
    {
        let base = constant.value.base;
        if base < 2 || base > 36 {
            return Err(simple_error(&constant.location, "invalid base"));
        }
        let chars = str_chars(constant.value.number.as_str());
        let ghost s = chars@;
        if chars.len() == 0 {
            return Err(simple_error(&constant.location, "empty integer constant"));
        }
        let mut acc: u64 = 0;
        let mut i: usize = 0;
        assert(s.take(0) =~= Seq::<char>::empty());
        while i < chars.len()
            invariant
                s == chars@,
                s == constant.value.number@,
                base == constant.value.base,
                2 <= base <= 36,
                i <= s.len(),
                acc == digits_value(s.take(i as int), base as int),
                acc <= i64::MAX,
                all_digits(s.take(i as int), base),
            decreases s.len() - i,
        {
            let d = match digit_of(chars[i]) {
                Some(v) => v,
                None => {
                    assert(!all_digits(s, base)) by {
                        assert(digit_value(s[i as int]) is None);
                    }
                    return Err(simple_error(&constant.location, "invalid digit"));
                },
            };
            if d >= base {
                assert(!all_digits(s, base)) by {
                    assert(digit_value(s[i as int]) == Some(d));
                    assert(!(digit_value(s[i as int]) matches Some(v) && v < base));
                }
                return Err(simple_error(&constant.location, "invalid digit"));
            }
            assert(s.take(i + 1).drop_last() =~= s.take(i as int));
            assert(acc as int * base as int + d as int <= 0x7fff_ffff_ffff_ffff * 36 + 36) by (nonlinear_arith)
                requires
                    acc <= 0x7fff_ffff_ffff_ffffu64,
                    base <= 36,
                    d < base,
            ;
            let wide: u128 = acc as u128 * base as u128 + d as u128;
            assert(wide == digits_value(s.take(i + 1), base as int));
            if wide > 0x7fff_ffff_ffff_ffffu128 {
                proof {
                    if all_digits(s, base) {
                        lemma_digits_value_prefix(s, base as int, i + 1);
                    }
                }
                return Err(simple_error(&constant.location, "integer constant is too large"));
            }
            acc = wide as u64;
            assert forall|k: int| 0 <= k < i + 1 implies ((#[trigger] digit_value(s.take(i + 1)[k])) matches Some(
                v,
            ) && v < base) by {
                if k < i {
                    assert(s.take(i + 1)[k] == s.take(i as int)[k]);
                }
            }
            i += 1;
        }
        assert(s.take(i as int) =~= s);
        Ok(Value::Int(acc as i64))
    }

    /// A binary operator applied to the values of two expressions.
    fn bin_op(&mut self, op: &Spanned<InfixOperator>, left: &Spanned<Expression>, right: &Spanned<Expression>) -> (r:
        PResult<Value>)
        ensures
            match eval(
                node(empty_location(), ExprView::BinOp(*op, Box::new(expr_view(*left)), Box::new(expr_view(*right)))),
            ) {
                Some(v) => r == Ok::<Value, Report>(Value::Int(v)),
                None => r is Err,
            },
        decreases 1 + expr_size(expr_view(*left)) + expr_size(expr_view(*right)), 0int,
    {
        match op.value {
            InfixOperator::LogicalAnd => {
                let left_val = self.evaluate(left)?;
                if !left_val.bool()? {
                    return Ok(Value::from_bool(false));
                }
                let right_val = self.evaluate(right)?;
                Ok(Value::from_bool(right_val.bool()?))
            },
            InfixOperator::LogicalOr => {
                let left_val = self.evaluate(left)?;
                if left_val.bool()? {
                    return Ok(Value::from_bool(true));
                }
                let right_val = self.evaluate(right)?;
                Ok(Value::from_bool(right_val.bool()?))
            },
            _ => {
                let left_val = self.evaluate(left)?;
                let right_val = self.evaluate(right)?;
                let (a, b) = match (left_val, right_val) {
                    (Value::Int(a), Value::Int(b)) => (a, b),
                };
                match op.value {
                    InfixOperator::Add => {
                        if (a > 0 && b > i64::MAX - a) || (a < 0 && b < i64::MIN - a) {
                            Err(simple_error(&op.location, "overflow in constant expression"))
                        } else {
                            left_val.add(right_val)
                        }
                    },
                    InfixOperator::Subtract => {
                        if (b < 0 && a > i64::MAX + b) || (b > 0 && a < i64::MIN + b) {
                            Err(simple_error(&op.location, "overflow in constant expression"))
                        } else {
                            left_val.subtract(right_val)
                        }
                    },
                    InfixOperator::Multiply => {
                        assert(-0x4000_0000_0000_0000_0000_0000_0000_0000 <= a as int * b as int
                            <= 0x4000_0000_0000_0000_0000_0000_0000_0000) by (nonlinear_arith)
                            requires
                                i64::MIN <= a <= i64::MAX,
                                i64::MIN <= b <= i64::MAX,
                        ;
                        let wide: i128 = a as i128 * b as i128;
                        if wide > i64::MAX as i128 || wide < i64::MIN as i128 {
                            Err(simple_error(&op.location, "overflow in constant expression"))
                        } else {
                            left_val.multiply(right_val)
                        }
                    },
                    InfixOperator::Divide => {
                        if b == 0 || (a == i64::MIN && b == -1) {
                            Err(simple_error(&op.location, "division by zero or overflow in constant expression"))
                        } else {
                            left_val.divide(right_val)
                        }
                    },
                    InfixOperator::Less => left_val.less(right_val),
                    InfixOperator::Greater => left_val.greater(right_val),
                    InfixOperator::LessEqual => left_val.less_eq(right_val),
                    InfixOperator::GreaterEqual => left_val.greater_eq(right_val),
                    InfixOperator::Equal => left_val.equal(right_val),
                    InfixOperator::NotEqual => left_val.equal(right_val)?.not(),
                    InfixOperator::BitwiseShiftLeft => {
                        if b < 0 || b >= 64 {
                            Err(simple_error(&op.location, "shift out of range in constant expression"))
                        } else {
                            left_val.shl(right_val)
                        }
                    },
                    InfixOperator::BitwiseShiftRight => {
                        if b < 0 || b >= 64 {
                            Err(simple_error(&op.location, "shift out of range in constant expression"))
                        } else {
                            left_val.shr(right_val)
                        }
                    },
                    _ => Err(simple_error(&op.location, "operator not supported in a constant expression")),
                }
            },
        }
    }

    /// A prefix operator applied to the value of an expression.
    fn un_op(&mut self, op: &Spanned<PrefixOperator>, expr: &Spanned<Expression>) -> (r: PResult<Value>)
        ensures
            match eval(node(empty_location(), ExprView::UnaryOp(*op, Box::new(expr_view(*expr))))) {
                Some(v) => r == Ok::<Value, Report>(Value::Int(v)),
                None => r is Err,
            },
        decreases 1 + expr_size(expr_view(*expr)), 0int,
    {
        let expr_val = self.evaluate(expr)?;
        match op.value {
            PrefixOperator::Plus => Ok(expr_val),
            PrefixOperator::Minus => {
                if expr_val.value_of() == i64::MIN {
                    Err(simple_error(&op.location, "overflow in constant expression"))
                } else {
                    expr_val.negate()
                }
            },
            PrefixOperator::LogicalNot => {
                let v = expr_val.value_of();
                if v == 0 || v == 1 {
                    expr_val.not()
                } else {
                    Err(simple_error(&op.location, "logical not of a value other than 0 or 1"))
                }
            },
            _ => Err(simple_error(&op.location, "operator not supported in a constant expression")),
        }
    }

    /// The value of `then` or `elze`, as `cond` decides.
    fn ternary(&mut self, cond: &Spanned<Expression>, then: &Spanned<Expression>, elze: &Spanned<Expression>) -> (r:
        PResult<Value>)
        ensures
            match eval(
                node(
                    empty_location(),
                    ExprView::Ternary(
                        Box::new(expr_view(*cond)),
                        Box::new(expr_view(*then)),
                        Box::new(expr_view(*elze)),
                    ),
                ),
            ) {
                Some(v) => r == Ok::<Value, Report>(Value::Int(v)),
                None => r is Err,
            },
        decreases 1 + expr_size(expr_view(*cond)) + expr_size(expr_view(*then)) + expr_size(expr_view(*elze)), 0int,
    {
        let cond = self.evaluate(cond)?;
        if cond.bool()? {
            self.evaluate(then)
        } else {
            self.evaluate(elze)
        }
    }
}

/// `Value::from_bool` and `Value::bool` undo each other: the value of `b` is nonzero
/// exactly when `b` holds.
pub proof fn law_from_bool_bool(b: bool)
    ensures
        (Value::Int(if b { 1 } else { 0 }).value() != 0) == b,
{
}

/// Division rounds toward zero: what it leaves over is smaller than the divisor and has
/// the sign of the dividend.
pub proof fn law_divide_remainder(a: int, b: int)
    requires
        b != 0,
    ensures
        ({
            let r = a - truncated_div(a, b) * b;
            &&& (if r < 0 { -r } else { r }) < (if b < 0 { -b } else { b })
            &&& r == 0 || (r < 0) == (a < 0)
        }),
{
    let ma = if a < 0 { -a } else { a };
    let mb = if b < 0 { -b } else { b };
    vstd::arithmetic::div_mod::lemma_fundamental_div_mod(ma, mb);
    vstd::arithmetic::div_mod::lemma_mod_pos_bound(ma, mb);
    let qa = ma / mb;
    let ra = ma % mb;
    assert(ma == mb * qa + ra);
    let q = truncated_div(a, b);
    if (a < 0) != (b < 0) {
        assert(q == -qa);
    } else {
        assert(q == qa);
    }
    assert(a - q * b == if a < 0 { -ra } else { ra }) by (nonlinear_arith)
        requires
            ma == mb * qa + ra,
            ma == (if a < 0 { -a } else { a }),
            mb == (if b < 0 { -b } else { b }),
            q == (if (a < 0) != (b < 0) { -qa } else { qa }),
    ;
}

impl Value {
    /// The integer a value holds.
    pub fn value_of(&self) -> (r: i64)
        ensures
            r == self.value(),
    {
        match self {
            Value::Int(v) => *v,
        }
    }

    pub open spec fn value(self) -> int {
        match self {
            Value::Int(v) => v as int,
        }
    }

    pub fn one() -> (r: Self)
        ensures
            r == Value::Int(1),
    {
        Self::Int(1)
    }

    pub fn zero() -> (r: Self)
        ensures
            r == Value::Int(0),
    {
        Self::Int(0)
    }

    /// `1` for `true`, `0` for `false`.
    pub fn from_bool(b: bool) -> (r: Self)
        ensures
            r == Value::Int(if b { 1 } else { 0 }),
    {
        if b {
            Self::one()
        } else {
            Self::zero()
        }
    }

    pub fn add(self, other: Self) -> (r: PResult<Self>)
        requires
            i64::MIN <= self.value() + other.value() <= i64::MAX,
        ensures
            r matches Ok(v) && v.value() == self.value() + other.value(),
    {
        match (self, other) {
            (Value::Int(lv), Value::Int(rv)) => Ok(Value::Int(lv + rv)),
        }
    }

    pub fn subtract(self, other: Self) -> (r: PResult<Self>)
        requires
            i64::MIN <= self.value() - other.value() <= i64::MAX,
        ensures
            r matches Ok(v) && v.value() == self.value() - other.value(),
    {
        match (self, other) {
            (Value::Int(lv), Value::Int(rv)) => Ok(Value::Int(lv - rv)),
        }
    }

    pub fn multiply(self, other: Self) -> (r: PResult<Self>)
        requires
            i64::MIN <= self.value() * other.value() <= i64::MAX,
        ensures
            r matches Ok(v) && v.value() == self.value() * other.value(),
    {
        match (self, other) {
            (Value::Int(lv), Value::Int(rv)) => Ok(Value::Int(lv * rv)),
        }
    }

    /// Division rounding toward zero.
    pub fn divide(self, other: Self) -> (r: PResult<Self>)
        requires
            other.value() != 0,
            !(self.value() == i64::MIN && other.value() == -1),
        ensures
            r matches Ok(v) && v.value() == truncated_div(self.value(), other.value()),
    {
        match (self, other) {
            (Value::Int(lv), Value::Int(rv)) => {
                let a = lv as i128;
                let b = rv as i128;
                let ma: i128 = if a < 0 { -a } else { a };
                let mb: i128 = if b < 0 { -b } else { b };
                let qa = ma / mb;
                assert(0 <= qa <= ma) by (nonlinear_arith)
                    requires
                        ma >= 0,
                        mb >= 1,
                        qa == ma / mb,
                ;
                assert(ma == i64::MAX + 1 && mb >= 2 ==> qa <= i64::MAX) by (nonlinear_arith)
                    requires
                        ma >= 0,
                        mb >= 1,
                        qa == ma / mb,
                ;
                let q: i128 = if (a < 0) != (b < 0) { -qa } else { qa };
                Ok(Value::Int(q as i64))
            },
        }
    }

    pub fn equal(self, other: Self) -> (r: PResult<Self>)
        ensures
            r matches Ok(v) && v.value() == if self.value() == other.value() { 1int } else { 0 },
    {
        match (self, other) {
            (Value::Int(lv), Value::Int(rv)) => Ok(if lv == rv { Value::Int(1) } else { Value::Int(0) }),
        }
    }

    pub fn greater(self, other: Self) -> (r: PResult<Self>)
        ensures
            r matches Ok(v) && v.value() == if self.value() > other.value() { 1int } else { 0 },
    {
        match (self, other) {
            (Value::Int(lv), Value::Int(rv)) => Ok(if lv > rv { Value::Int(1) } else { Value::Int(0) }),
        }
    }

    pub fn greater_eq(self, other: Self) -> (r: PResult<Self>)
        ensures
            r matches Ok(v) && v.value() == if self.value() >= other.value() { 1int } else { 0 },
    {
        match (self, other) {
            (Value::Int(lv), Value::Int(rv)) => Ok(if lv >= rv { Value::Int(1) } else { Value::Int(0) }),
        }
    }

    pub fn less_eq(self, other: Self) -> (r: PResult<Self>)
        ensures
            r matches Ok(v) && v.value() == if self.value() <= other.value() { 1int } else { 0 },
    {
        match (self, other) {
            (Value::Int(lv), Value::Int(rv)) => Ok(if lv <= rv { Value::Int(1) } else { Value::Int(0) }),
        }
    }

    pub fn less(self, other: Self) -> (r: PResult<Self>)
        ensures
            r matches Ok(v) && v.value() == if self.value() < other.value() { 1int } else { 0 },
    {
        match (self, other) {
            (Value::Int(lv), Value::Int(rv)) => Ok(if lv < rv { Value::Int(1) } else { Value::Int(0) }),
        }
    }

    pub fn negate(self) -> (r: PResult<Self>)
        requires
            self.value() != i64::MIN,
        ensures
            r matches Ok(v) && v.value() == -self.value(),
    {
        match self {
            Value::Int(v) => Ok(Value::Int(-v)),
        }
    }

    /// Logical negation of `0` or `1`.
    pub fn not(self) -> (r: PResult<Self>)
        requires
            self.value() == 0 || self.value() == 1,
        ensures
            r matches Ok(v) && v.value() == 1 - self.value(),
    {
        match self {
            Value::Int(1) => Ok(Value::Int(0)),
            Value::Int(_) => Ok(Value::Int(1)),
        }
    }

    /// Whether the value is not zero.
    pub fn bool(self) -> (r: PResult<bool>)
        ensures
            r == Ok::<bool, crate::errors::Report>(self.value() != 0),
    {
        match self {
            Value::Int(value) => Ok(value != 0),
        }
    }

    /// Shift left, the bits shifted out dropped.
    pub fn shl(self, other: Self) -> (r: PResult<Self>)
        requires
            0 <= other.value() < 64,
        ensures
            r matches Ok(v) && v == Value::Int(self->Int_0 << (other->Int_0 as u64)),
    {
        match (self, other) {
            (Value::Int(lv), Value::Int(right)) => Ok(Value::Int(lv << (right as u64))),
        }
    }

    /// Arithmetic shift right.
    pub fn shr(self, other: Self) -> (r: PResult<Self>)
        requires
            0 <= other.value() < 64,
        ensures
            r matches Ok(v) && v == Value::Int(self->Int_0 >> (other->Int_0 as u64)),
    {
        match (self, other) {
            (Value::Int(lv), Value::Int(right)) => Ok(Value::Int(lv >> (right as u64))),
        }
    }
}

} // verus!

//! Expressions, and their parsing by binding power.
use crate::ast::{Keyword, Punctuator};
use crate::errors::{simple_error, PResult};
use crate::parser::{declared_as, keeps, first_is, first_tok, ok_first, typename_first, IdentifierKind, IntConstant, Parser, Scope, Token};
use crate::spanned::{Location, Spanned};
use core::ops::Range;
use vstd::prelude::*;

verus! {

#[derive(Debug, Clone, Copy, PartialEq, Eq, Structural)]
pub enum InfixOperator {
    Access,
    IndirectAccess,
    Multiply,
    Divide,
    Modulo,
    Add,
    Subtract,
    BitwiseShiftLeft,
    BitwiseShiftRight,
    Less,
    LessEqual,
    Greater,
    GreaterEqual,
    Equal,
    NotEqual,
    BitwiseAnd,
    BitwiseXor,
    BitwiseOr,
    LogicalAnd,
    LogicalOr,
    Assign,
    AddAssign,
    SubtractAssign,
    MultiplyAssign,
    DivideAssign,
    ModuloAssign,
    BitwiseShiftLeftAssign,
    BitwiseShiftRightAssign,
    BitwiseAndAssign,
    BitwiseXorAssign,
    BitwiseOrAssign,
}

#[derive(Debug, Clone, Copy, PartialEq, Eq, Structural)]
pub enum PrefixOperator {
    Minus,
    Plus,
    CastOrParen,
    BitwiseNot,
    Dereference,
    Increment,
    Decrement,
    LogicalNot,
    AddressOf,
    SizeOf,
}

#[derive(Debug, Clone, Copy, PartialEq, Eq, Structural)]
pub enum PostfixOperator {
    Increment,
    Decrement,
    Call,
    Subscript,
    Ternary,
}

/// An expression.
#[derive(Debug)]
pub enum Expression {
    Identifier(Spanned<String>),
    IntConstant(Spanned<IntConstant>),
    StringLiteral(Spanned<String>),
    Parenthesized(Box<Spanned<Expression>>),
    BinOp(Spanned<InfixOperator>, Box<Spanned<Expression>>, Box<Spanned<Expression>>),
    UnaryOp(Spanned<PrefixOperator>, Box<Spanned<Expression>>),
    PostfixOp(Spanned<PostfixOperator>, Box<Spanned<Expression>>),
    Call(Box<Spanned<Expression>>, Vec<Spanned<Expression>>),
    Subscript(Box<Spanned<Expression>>, Box<Spanned<Expression>>),
    Ternary(Box<Spanned<Expression>>, Box<Spanned<Expression>>, Box<Spanned<Expression>>),
    Null,
}

/// The mathematical model of an expression: strings as character sequences, an integer
/// constant as its digits and base, argument lists as sequences.
pub enum ExprView {
    Identifier(Spanned<Seq<char>>),
    IntConstant(Spanned<(Seq<char>, u32)>),
    StringLiteral(Spanned<Seq<char>>),
    Parenthesized(Box<Spanned<ExprView>>),
    BinOp(Spanned<InfixOperator>, Box<Spanned<ExprView>>, Box<Spanned<ExprView>>),
    UnaryOp(Spanned<PrefixOperator>, Box<Spanned<ExprView>>),
    PostfixOp(Spanned<PostfixOperator>, Box<Spanned<ExprView>>),
    Call(Box<Spanned<ExprView>>, Seq<Spanned<ExprView>>),
    Subscript(Box<Spanned<ExprView>>, Box<Spanned<ExprView>>),
    Ternary(Box<Spanned<ExprView>>, Box<Spanned<ExprView>>, Box<Spanned<ExprView>>),
    Null,
}

/// The model of an expression.
pub open spec fn expr_value_view(e: Expression) -> ExprView
    decreases e, 0int,
{
    match e {
        Expression::Identifier(s) => ExprView::Identifier(Spanned { value: s.value@, location: s.location }),
        Expression::IntConstant(c) => ExprView::IntConstant(
            Spanned { value: (c.value.number@, c.value.base), location: c.location },
        ),
        Expression::StringLiteral(s) => ExprView::StringLiteral(Spanned { value: s.value@, location: s.location }),
        Expression::Parenthesized(x) => ExprView::Parenthesized(Box::new(expr_view(*x))),
        Expression::BinOp(op, l, r) => ExprView::BinOp(op, Box::new(expr_view(*l)), Box::new(expr_view(*r))),
        Expression::UnaryOp(op, x) => ExprView::UnaryOp(op, Box::new(expr_view(*x))),
        Expression::PostfixOp(op, x) => ExprView::PostfixOp(op, Box::new(expr_view(*x))),
        Expression::Call(f, args) => {
            proof {
                broadcast use vstd::std_specs::vec::axiom_vec_decreases_to_view;
                assert(decreases_to!(args => args@));
            }
            ExprView::Call(Box::new(expr_view(*f)), exprs_view(args@))
        },
        Expression::Subscript(a, i) => ExprView::Subscript(Box::new(expr_view(*a)), Box::new(expr_view(*i))),
        Expression::Ternary(c, t, f) => ExprView::Ternary(
            Box::new(expr_view(*c)),
            Box::new(expr_view(*t)),
            Box::new(expr_view(*f)),
        ),
        Expression::Null => ExprView::Null,
    }
}

/// The model of a spanned expression.
pub open spec fn expr_view(e: Spanned<Expression>) -> Spanned<ExprView>
    decreases e, 1int,
{
    Spanned { value: expr_value_view(e.value), location: e.location }
}

/// The models of a sequence of expressions.
pub open spec fn exprs_view(s: Seq<Spanned<Expression>>) -> Seq<Spanned<ExprView>>
    decreases s, 2int,
{
    if s.len() == 0 {
        seq![]
    } else {
        proof {
            assert(decreases_to!(s => s[0]));
            assert(decreases_to!(s => s.drop_first()));
        }
        seq![expr_view(s[0])] + exprs_view(s.drop_first())
    }
}

pub proof fn lemma_exprs_view(s: Seq<Spanned<Expression>>)
    ensures
        exprs_view(s).len() == s.len(),
        forall|i: int| 0 <= i < s.len() ==> #[trigger] exprs_view(s)[i] == expr_view(s[i]),
    decreases s.len(),
{
    if s.len() > 0 {
        lemma_exprs_view(s.drop_first());
        assert forall|i: int| 0 <= i < s.len() implies #[trigger] exprs_view(s)[i] == expr_view(s[i]) by {
            if i > 0 {
                assert(s.drop_first()[i - 1] == s[i]);
            }
        }
    }
}

pub proof fn lemma_exprs_view_push(s: Seq<Spanned<Expression>>, e: Spanned<Expression>)
    ensures
        exprs_view(s.push(e)) == exprs_view(s).push(expr_view(e)),
{
    lemma_exprs_view(s);
    lemma_exprs_view(s.push(e));
    assert(exprs_view(s.push(e)) =~= exprs_view(s).push(expr_view(e)));
}

/// The prefix operator that a token is.
pub open spec fn prefix_of(t: Token) -> Option<PrefixOperator> {
    match t {
        Token::Punctuator(Punctuator::Minus) => Some(PrefixOperator::Minus),
        Token::Punctuator(Punctuator::Plus) => Some(PrefixOperator::Plus),
        Token::Punctuator(Punctuator::LeftParen) => Some(PrefixOperator::CastOrParen),
        Token::Punctuator(Punctuator::Tilde) => Some(PrefixOperator::BitwiseNot),
        Token::Punctuator(Punctuator::Asterisk) => Some(PrefixOperator::Dereference),
        Token::Punctuator(Punctuator::PlusPlus) => Some(PrefixOperator::Increment),
        Token::Punctuator(Punctuator::MinusMinus) => Some(PrefixOperator::Decrement),
        Token::Punctuator(Punctuator::Bang) => Some(PrefixOperator::LogicalNot),
        Token::Punctuator(Punctuator::Ampersand) => Some(PrefixOperator::AddressOf),
        Token::Keyword(Keyword::Sizeof) => Some(PrefixOperator::SizeOf),
        _ => None,
    }
}

/// The postfix operator that a token is.
pub open spec fn postfix_of(t: Token) -> Option<PostfixOperator> {
    match t {
        Token::Punctuator(Punctuator::PlusPlus) => Some(PostfixOperator::Increment),
        Token::Punctuator(Punctuator::MinusMinus) => Some(PostfixOperator::Decrement),
        Token::Punctuator(Punctuator::LeftParen) => Some(PostfixOperator::Call),
        Token::Punctuator(Punctuator::LeftBracket) => Some(PostfixOperator::Subscript),
        Token::Punctuator(Punctuator::Question) => Some(PostfixOperator::Ternary),
        _ => None,
    }
}

/// The infix operator that a token is.
pub open spec fn infix_of(t: Token) -> Option<InfixOperator> {
    match t {
        Token::Punctuator(p) => match p {
            Punctuator::Dot => Some(InfixOperator::Access),
            Punctuator::Arrow => Some(InfixOperator::IndirectAccess),
            Punctuator::Asterisk => Some(InfixOperator::Multiply),
            Punctuator::Slash => Some(InfixOperator::Divide),
            Punctuator::Percent => Some(InfixOperator::Modulo),
            Punctuator::Plus => Some(InfixOperator::Add),
            Punctuator::Minus => Some(InfixOperator::Subtract),
            Punctuator::LeftLeft => Some(InfixOperator::BitwiseShiftLeft),
            Punctuator::RightRight => Some(InfixOperator::BitwiseShiftRight),
            Punctuator::Left => Some(InfixOperator::Less),
            Punctuator::LeftEqual => Some(InfixOperator::LessEqual),
            Punctuator::Right => Some(InfixOperator::Greater),
            Punctuator::RightEqual => Some(InfixOperator::GreaterEqual),
            Punctuator::EqualEqual => Some(InfixOperator::Equal),
            Punctuator::BangEqual => Some(InfixOperator::NotEqual),
            Punctuator::Ampersand => Some(InfixOperator::BitwiseAnd),
            Punctuator::Caret => Some(InfixOperator::BitwiseXor),
            Punctuator::Pipe => Some(InfixOperator::BitwiseOr),
            Punctuator::AndAnd => Some(InfixOperator::LogicalAnd),
            Punctuator::PipePipe => Some(InfixOperator::LogicalOr),
            Punctuator::Equal => Some(InfixOperator::Assign),
            Punctuator::PlusEqual => Some(InfixOperator::AddAssign),
            Punctuator::MinusEqual => Some(InfixOperator::SubtractAssign),
            Punctuator::AsteriskEqual => Some(InfixOperator::MultiplyAssign),
            Punctuator::SlashEqual => Some(InfixOperator::DivideAssign),
            Punctuator::PercentEqual => Some(InfixOperator::ModuloAssign),
            Punctuator::LeftLeftEqual => Some(InfixOperator::BitwiseShiftLeftAssign),
            Punctuator::RightRightEqual => Some(InfixOperator::BitwiseShiftRightAssign),
            Punctuator::AndEqual => Some(InfixOperator::BitwiseAndAssign),
            Punctuator::CaretEqual => Some(InfixOperator::BitwiseXorAssign),
            Punctuator::PipeEqual => Some(InfixOperator::BitwiseOrAssign),
            _ => None,
        },
        _ => None,
    }
}

/// Left and right binding power of an infix operator; the assignments bind to the right.
pub open spec fn infix_bp(op: InfixOperator) -> (u8, u8) {
    match op {
        InfixOperator::Access | InfixOperator::IndirectAccess => (33, 34),
        InfixOperator::Multiply | InfixOperator::Divide | InfixOperator::Modulo => (31, 32),
        InfixOperator::Add | InfixOperator::Subtract => (29, 30),
        InfixOperator::BitwiseShiftLeft | InfixOperator::BitwiseShiftRight => (27, 28),
        InfixOperator::Less | InfixOperator::LessEqual => (25, 26),
        InfixOperator::Greater | InfixOperator::GreaterEqual => (23, 24),
        InfixOperator::Equal | InfixOperator::NotEqual => (21, 22),
        InfixOperator::BitwiseAnd => (19, 20),
        InfixOperator::BitwiseXor => (17, 18),
        InfixOperator::BitwiseOr => (15, 16),
        InfixOperator::LogicalAnd => (15, 16),
        InfixOperator::LogicalOr => (11, 12),
        InfixOperator::Assign => (10, 9),
        InfixOperator::AddAssign | InfixOperator::SubtractAssign => (8, 7),
        InfixOperator::MultiplyAssign | InfixOperator::DivideAssign | InfixOperator::ModuloAssign => (6, 5),
        InfixOperator::BitwiseShiftLeftAssign | InfixOperator::BitwiseShiftRightAssign => (4, 3),
        InfixOperator::BitwiseAndAssign | InfixOperator::BitwiseXorAssign | InfixOperator::BitwiseOrAssign => (2, 1),
    }
}

/// Left binding power of a postfix operator.
pub open spec fn postfix_bp(op: PostfixOperator) -> u8 {
    match op {
        PostfixOperator::Ternary => 11,
        _ => 35,
    }
}

/// Whether `e` is the binary expression `l op r`, wherever it is.
pub open spec fn is_bin(e: Spanned<ExprView>, op: InfixOperator, l: Spanned<ExprView>, r: Spanned<ExprView>) -> bool {
    e.value matches ExprView::BinOp(o, a, b) && o.value == op && *a == l && *b == r
}

/// The expression that parsing gives, where it takes every item.
pub open spec fn whole_parse(r: Option<(Spanned<ExprView>, Seq<PResult<Spanned<Token>>>, nat)>) -> Option<Spanned<ExprView>> {
    match r {
        Some((e, rest, _)) => if rest.len() == 0 {
            Some(e)
        } else {
            None
        },
        None => None,
    }
}

/// Whether `e` is `l op (m op2 r)`.
pub open spec fn is_bin_right(
    e: Spanned<ExprView>,
    op: InfixOperator,
    l: Spanned<ExprView>,
    op2: InfixOperator,
    m: Spanned<ExprView>,
    r: Spanned<ExprView>,
) -> bool {
    e.value matches ExprView::BinOp(o, a, b) && o.value == op && *a == l && is_bin(*b, op2, m, r)
}

/// Whether `e` is `(l op2 m) op r`.
pub open spec fn is_bin_left(
    e: Spanned<ExprView>,
    op: InfixOperator,
    l: Spanned<ExprView>,
    op2: InfixOperator,
    m: Spanned<ExprView>,
    r: Spanned<ExprView>,
) -> bool {
    e.value matches ExprView::BinOp(o, a, b) && o.value == op && *b == r && is_bin(*a, op2, l, m)
}

/// Whether `t` is an operand token: an identifier, a number or a string literal.
pub open spec fn operand_token(t: Spanned<Token>) -> bool {
    t.value is Identifier || t.value is Constant || t.value is StringLiteral
}

/// Operators bind as in C where it matters between neighbouring levels: `*` `/` `%` over
/// `+` `-`, over the shifts, over the comparisons, over `==` `!=`, over `&`, over `^`, over
/// `|`; `&&` over `||`, `||` over `?:`, and every binary operator above the assignments.
/// The binary operators group to the left, the assignments to the right.
pub proof fn law_binding_powers()
    ensures
        infix_bp(InfixOperator::Multiply).0 > infix_bp(InfixOperator::Add).1,
        infix_bp(InfixOperator::Add).0 > infix_bp(InfixOperator::BitwiseShiftLeft).1,
        infix_bp(InfixOperator::BitwiseShiftLeft).0 > infix_bp(InfixOperator::Less).1,
        infix_bp(InfixOperator::BitwiseShiftLeft).0 > infix_bp(InfixOperator::Greater).1,
        infix_bp(InfixOperator::Less).0 > infix_bp(InfixOperator::Equal).1,
        infix_bp(InfixOperator::GreaterEqual).0 > infix_bp(InfixOperator::NotEqual).1,
        infix_bp(InfixOperator::Equal).0 > infix_bp(InfixOperator::BitwiseAnd).1,
        infix_bp(InfixOperator::BitwiseAnd).0 > infix_bp(InfixOperator::BitwiseXor).1,
        infix_bp(InfixOperator::BitwiseXor).0 > infix_bp(InfixOperator::BitwiseOr).1,
        infix_bp(InfixOperator::LogicalAnd).0 > infix_bp(InfixOperator::LogicalOr).1,
        infix_bp(InfixOperator::LogicalOr).1 > postfix_bp(PostfixOperator::Ternary),
        infix_bp(InfixOperator::LogicalOr).0 > infix_bp(InfixOperator::Assign).0,
        forall|op: InfixOperator|
            !(op is Assign || op is AddAssign || op is SubtractAssign || op is MultiplyAssign || op is DivideAssign
                || op is ModuloAssign || op is BitwiseShiftLeftAssign || op is BitwiseShiftRightAssign
                || op is BitwiseAndAssign || op is BitwiseXorAssign || op is BitwiseOrAssign) ==> #[trigger] infix_bp(op).0
                < infix_bp(op).1 && infix_bp(op).0 > infix_bp(InfixOperator::Assign).0,
        forall|op: InfixOperator|
            (op is Assign || op is AddAssign || op is SubtractAssign || op is MultiplyAssign || op is DivideAssign
                || op is ModuloAssign || op is BitwiseShiftLeftAssign || op is BitwiseShiftRightAssign
                || op is BitwiseAndAssign || op is BitwiseXorAssign || op is BitwiseOrAssign) ==> #[trigger] infix_bp(op).0
                > infix_bp(op).1,
{
}

/// `x || y && z` reads as `x || (y && z)`, and `x && y || z` as `(x && y) || z`, whatever
/// the operands.
pub proof fn law_and_before_or(
    x: Spanned<Token>,
    l1: Location,
    y: Spanned<Token>,
    l2: Location,
    z: Spanned<Token>,
    sc: Seq<Scope>,
)
    requires
        operand_token(x),
        operand_token(y),
        operand_token(z),
    ensures
        ({
            let e = whole_parse(
                parse_bp(
                    seq![
                        Ok(x),
                        Ok(Spanned { value: Token::Punctuator(Punctuator::PipePipe), location: l1 }),
                        Ok(y),
                        Ok(Spanned { value: Token::Punctuator(Punctuator::AndAnd), location: l2 }),
                        Ok(z),
                    ],
                    0,
                    sc,
                ),
            );
            e is Some && is_bin_right(
                e->0,
                InfixOperator::LogicalOr,
                leaf_of(x)->0,
                InfixOperator::LogicalAnd,
                leaf_of(y)->0,
                leaf_of(z)->0,
            )
        }),
        ({
            let e = whole_parse(
                parse_bp(
                    seq![
                        Ok(x),
                        Ok(Spanned { value: Token::Punctuator(Punctuator::AndAnd), location: l1 }),
                        Ok(y),
                        Ok(Spanned { value: Token::Punctuator(Punctuator::PipePipe), location: l2 }),
                        Ok(z),
                    ],
                    0,
                    sc,
                ),
            );
            e is Some && is_bin_left(
                e->0,
                InfixOperator::LogicalOr,
                leaf_of(x)->0,
                InfixOperator::LogicalAnd,
                leaf_of(y)->0,
                leaf_of(z)->0,
            )
        }),
{
    lemma_three_operands(x, Punctuator::PipePipe, l1, y, Punctuator::AndAnd, l2, z, sc);
    lemma_three_operands(x, Punctuator::AndAnd, l1, y, Punctuator::PipePipe, l2, z, sc);
}

/// How `x p y q z` parses at the outermost level, for two binary operators `p` and `q`:
/// the second binds first when it binds more tightly than the first from the right.
proof fn lemma_three_operands(
    x: Spanned<Token>,
    p: Punctuator,
    l1: Location,
    y: Spanned<Token>,
    q: Punctuator,
    l2: Location,
    z: Spanned<Token>,
    sc: Seq<Scope>,
)
    requires
        operand_token(x),
        operand_token(y),
        operand_token(z),
        infix_of(Token::Punctuator(p)) is Some,
        infix_of(Token::Punctuator(q)) is Some,
        postfix_of(Token::Punctuator(p)) is None,
        postfix_of(Token::Punctuator(q)) is None,
        p != Punctuator::Semicolon,
        q != Punctuator::Semicolon,
    ensures
        ({
            let op1 = infix_of(Token::Punctuator(p))->0;
            let op2 = infix_of(Token::Punctuator(q))->0;
            let e = whole_parse(
                parse_bp(
                    seq![Ok(x), Ok(Spanned { value: Token::Punctuator(p), location: l1 }), Ok(y), Ok(
                        Spanned { value: Token::Punctuator(q), location: l2 },
                    ), Ok(z)],
                    0,
                    sc,
                ),
            );
            &&& infix_bp(op2).0 >= infix_bp(op1).1 ==> e is Some && is_bin_right(
                e->0,
                op1,
                leaf_of(x)->0,
                op2,
                leaf_of(y)->0,
                leaf_of(z)->0,
            )
            &&& infix_bp(op2).0 < infix_bp(op1).1 && infix_bp(op1).0 >= infix_bp(op2).1 ==> e is Some && is_bin_left(
                e->0,
                op2,
                leaf_of(x)->0,
                op1,
                leaf_of(y)->0,
                leaf_of(z)->0,
            )
        }),
{
    let op1 = infix_of(Token::Punctuator(p))->0;
    let op2 = infix_of(Token::Punctuator(q))->0;
    let t1 = Spanned { value: Token::Punctuator(p), location: l1 };
    let t2 = Spanned { value: Token::Punctuator(q), location: l2 };
    let empty = Seq::<PResult<Spanned<Token>>>::empty();
    let sz: Seq<PResult<Spanned<Token>>> = seq![Ok(z)];
    let s2 = seq![Ok(t2)] + sz;
    let sy = seq![Ok(y)] + s2;
    let s1 = seq![Ok(t1)] + sy;
    let ts = seq![Ok(x)] + s1;
    assert(ts =~= seq![Ok(x), Ok(t1), Ok(y), Ok(t2), Ok(z)]);
    assert(sz.drop_first() =~= empty);
    assert(s2.drop_first() =~= sz);
    assert(sy.drop_first() =~= s2);
    assert(s1.drop_first() =~= sy);
    assert(ts.drop_first() =~= s1);
    let lx = leaf_of(x)->0;
    let ly = leaf_of(y)->0;
    let lz = leaf_of(z)->0;
    let (lb1, rb1) = infix_bp(op1);
    let (lb2, rb2) = infix_bp(op2);
    // z alone
    assert(lhs_loop(empty, lz, rb2 as int, sc, 0) == Some((lz, empty, 0nat)));
    assert(parse_bp(sz, rb2 as int, sc) == Some((lz, empty, 0nat)));
    if lb2 >= rb1 {
        let yz = node(loc_until(ly.location, lz.location), ExprView::BinOp(Spanned { value: op2, location: l2 }, Box::new(ly), Box::new(lz)));
        assert(lhs_loop(empty, yz, rb1 as int, sc, 0) == Some((yz, empty, 0nat)));
        assert(lhs_loop(s2, ly, rb1 as int, sc, 0) == Some((yz, empty, 0nat)));
        assert(parse_bp(sy, rb1 as int, sc) == Some((yz, empty, 0nat)));
        let all = node(loc_until(lx.location, yz.location), ExprView::BinOp(Spanned { value: op1, location: l1 }, Box::new(lx), Box::new(yz)));
        assert(lhs_loop(empty, all, 0, sc, 0) == Some((all, empty, 0nat)));
        assert(lhs_loop(s1, lx, 0, sc, 0) == Some((all, empty, 0nat)));
        assert(parse_bp(ts, 0, sc) == Some((all, empty, 0nat)));
    } else if lb1 >= rb2 {
        assert(parse_bp(sz, rb2 as int, sc) == Some((lz, empty, 0nat)));
        assert(lhs_loop(s2, ly, rb1 as int, sc, 0) == Some((ly, s2, 0nat)));
        assert(parse_bp(sy, rb1 as int, sc) == Some((ly, s2, 0nat)));
        let xy = node(loc_until(lx.location, ly.location), ExprView::BinOp(Spanned { value: op1, location: l1 }, Box::new(lx), Box::new(ly)));
        let all = node(loc_until(xy.location, lz.location), ExprView::BinOp(Spanned { value: op2, location: l2 }, Box::new(xy), Box::new(lz)));
        assert(lhs_loop(empty, all, 0, sc, 0) == Some((all, empty, 0nat)));
        assert(lhs_loop(s2, xy, 0, sc, 0) == Some((all, empty, 0nat)));
        assert(lhs_loop(s1, lx, 0, sc, 0) == Some((all, empty, 0nat)));
        assert(parse_bp(ts, 0, sc) == Some((all, empty, 0nat)));
    }
}

/// The location from the start of `a` to the end of `b`, in the file of `a`.
pub open spec fn loc_until(a: Location, b: Location) -> Location {
    Location { range: Range { start: a.range.start, end: b.range.end }, file_id: a.file_id }
}

/// The empty location `0..0` of file `0`.
pub open spec fn empty_location() -> Location {
    Location { range: Range { start: 0usize, end: 0usize }, file_id: 0usize }
}

pub open spec fn node(location: Location, v: ExprView) -> Spanned<ExprView> {
    Spanned { value: v, location }
}

/// The expression that a primary token is on its own.
pub open spec fn leaf_of(t: Spanned<Token>) -> Option<Spanned<ExprView>> {
    match t.value {
        Token::Identifier(i) => Some(node(t.location, ExprView::Identifier(Spanned { value: i@, location: t.location }))),
        Token::Constant(c) => Some(
            node(t.location, ExprView::IntConstant(Spanned { value: (c.number@, c.base), location: t.location })),
        ),
        Token::StringLiteral(s) => Some(
            node(t.location, ExprView::StringLiteral(Spanned { value: s@, location: t.location })),
        ),
        _ => None,
    }
}

/// An expression at the front of `ts` whose operators bind at least as tightly as `mbp`:
/// the expression, the items after it, and how many diagnostics were reported on the way;
/// `None` when parsing fails.  With no token in front the expression is `Null`.
pub open spec fn parse_bp(ts: Seq<PResult<Spanned<Token>>>, mbp: int, sc: Seq<Scope>) -> Option<
    (Spanned<ExprView>, Seq<PResult<Spanned<Token>>>, nat),
>
    decreases ts.len(), 0int,
{
    if !ok_first(ts) {
        Some((node(empty_location(), ExprView::Null), ts, 0))
    } else {
        let t = first_tok(ts);
        let ts1 = ts.drop_first();
        match prefix_of(t.value) {
            Some(op) => {
                if op == PrefixOperator::SizeOf || (op == PrefixOperator::CastOrParen && typename_first(ts1, sc)) {
                    None
                } else if op == PrefixOperator::CastOrParen {
                    match parse_bp(ts1, 0, sc) {
                        Some((e, r, d)) => if first_is(r, Punctuator::RightParen) && r.len() <= ts1.len() {
                            lhs_loop(r.drop_first(), e, mbp, sc, d)
                        } else {
                            None
                        },
                        None => None,
                    }
                } else {
                    match parse_bp(ts1, 33, sc) {
                        Some((e, r, d)) => if r.len() < ts.len() {
                            lhs_loop(
                                r,
                                node(
                                    loc_until(t.location, e.location),
                                    ExprView::UnaryOp(Spanned { value: op, location: t.location }, Box::new(e)),
                                ),
                                mbp,
                                sc,
                                d,
                            )
                        } else {
                            None
                        },
                        None => None,
                    }
                }
            },
            None => match leaf_of(t) {
                Some(leaf) => lhs_loop(ts1, leaf, mbp, sc, 0),
                None => None,
            },
        }
    }
}

/// Extends `lhs` by the postfix and infix operators at the front of `ts` that bind at least
/// as tightly as `mbp`; `d` counts the diagnostics reported so far.
pub open spec fn lhs_loop(
    ts: Seq<PResult<Spanned<Token>>>,
    lhs: Spanned<ExprView>,
    mbp: int,
    sc: Seq<Scope>,
    d: nat,
) -> Option<(Spanned<ExprView>, Seq<PResult<Spanned<Token>>>, nat)>
    decreases ts.len(), 2int,
{
    if first_is(ts, Punctuator::Semicolon) || !ok_first(ts) {
        Some((lhs, ts, d))
    } else {
        let t = first_tok(ts);
        let ts1 = ts.drop_first();
        match postfix_of(t.value) {
            Some(op) => {
                let lbp = postfix_bp(op);
                if lbp < mbp {
                    Some((lhs, ts, d))
                } else {
                    match op {
                        PostfixOperator::Call => match args_loop(ts1, seq![], sc, 0) {
                            Some((args, r, d2)) => if r.len() < ts.len() {
                                lhs_loop(
                                    r,
                                    node(loc_until(t.location, lhs.location), ExprView::Call(Box::new(lhs), args)),
                                    mbp,
                                    sc,
                                    d + d2,
                                )
                            } else {
                                None
                            },
                            None => None,
                        },
                        PostfixOperator::Subscript => match parse_bp(ts1, 0, sc) {
                            Some((e, r, d2)) => if first_is(r, Punctuator::RightBracket) && r.len() <= ts1.len() {
                                lhs_loop(
                                    r.drop_first(),
                                    node(
                                        loc_until(lhs.location, first_tok(r).location),
                                        ExprView::Subscript(Box::new(lhs), Box::new(e)),
                                    ),
                                    mbp,
                                    sc,
                                    d + d2,
                                )
                            } else {
                                None
                            },
                            None => None,
                        },
                        PostfixOperator::Ternary => match parse_bp(ts1, 0, sc) {
                            Some((th, r, d2)) => if first_is(r, Punctuator::Colon) && r.len() <= ts1.len() {
                                match parse_bp(r.drop_first(), lbp as int, sc) {
                                    Some((el, r2, d3)) => if r2.len() < ts.len() {
                                        lhs_loop(
                                            r2,
                                            node(
                                                loc_until(lhs.location, first_tok(r).location),
                                                ExprView::Ternary(Box::new(lhs), Box::new(th), Box::new(el)),
                                            ),
                                            mbp,
                                            sc,
                                            d + d2 + d3,
                                        )
                                    } else {
                                        None
                                    },
                                    None => None,
                                }
                            } else {
                                None
                            },
                            None => None,
                        },
                        _ => lhs_loop(
                            ts1,
                            node(
                                loc_until(t.location, lhs.location),
                                ExprView::PostfixOp(Spanned { value: op, location: t.location }, Box::new(lhs)),
                            ),
                            mbp,
                            sc,
                            d,
                        ),
                    }
                }
            },
            None => match infix_of(t.value) {
                Some(op) => {
                    let (lbp, rbp) = infix_bp(op);
                    if lbp < mbp {
                        Some((lhs, ts, d))
                    } else {
                        match parse_bp(ts1, rbp as int, sc) {
                            Some((rhs, r, d2)) => if r.len() < ts.len() {
                                lhs_loop(
                                    r,
                                    node(
                                        loc_until(lhs.location, rhs.location),
                                        ExprView::BinOp(
                                            Spanned { value: op, location: t.location },
                                            Box::new(lhs),
                                            Box::new(rhs),
                                        ),
                                    ),
                                    mbp,
                                    sc,
                                    d + d2,
                                )
                            } else {
                                None
                            },
                            None => None,
                        }
                    }
                },
                None => Some((lhs, ts, d)),
            },
        }
    }
}

/// The arguments of a call after its `(`, given the arguments `args` read so far: loops
/// while the next token is not `)` or a `)` is followed by a comma (after some argument);
/// a `)` right after a separating comma ends the list with one diagnostic.
pub open spec fn args_loop(
    ts: Seq<PResult<Spanned<Token>>>,
    args: Seq<Spanned<ExprView>>,
    sc: Seq<Scope>,
    d: nat,
) -> Option<(Seq<Spanned<ExprView>>, Seq<PResult<Spanned<Token>>>, nat)>
    decreases ts.len(), 1int,
{
    if !ok_first(ts) {
        None
    } else {
        let rp = first_is(ts, Punctuator::RightParen);
        let q = if rp { ts.drop_first() } else { ts };
        let enter = !rp || (args.len() >= 1 && first_is(q, Punctuator::Comma));
        if !enter {
            Some((args, q, d))
        } else if args.len() > 0 && !first_is(q, Punctuator::Comma) {
            None
        } else {
            let q1 = if args.len() > 0 { q.drop_first() } else { q };
            if !ok_first(q1) {
                None
            } else if first_is(q1, Punctuator::RightParen) {
                Some((args, q1.drop_first(), d + 1))
            } else {
                match parse_bp(q1, 0, sc) {
                    Some((e, r, d2)) => if r.len() < ts.len() {
                        args_loop(r, args.push(e), sc, d + d2)
                    } else {
                        None
                    },
                    None => None,
                }
            }
        }
    }
}

/// Whether the first pending token can start a primary expression.
pub open spec fn primary_first(ts: Seq<PResult<Spanned<Token>>>, sc: Seq<Scope>) -> bool {
    ok_first(ts) && match first_tok(ts).value {
        Token::Identifier(i) => !declared_as(sc, i@, IdentifierKind::Typename),
        Token::Constant(_) => true,
        Token::StringLiteral(_) => true,
        t => t == Token::Punctuator(Punctuator::LeftParen) || prefix_of(t) is Some,
    }
}

impl Parser {
    fn prefix_binding_power(operator: &PrefixOperator) -> (r: ((), u8))
        ensures
            r.1 == 33,
    {
        ((), 33)
    }

    fn infix_binding_power(operator: &InfixOperator) -> (r: Option<(u8, u8)>)
        ensures
            r == Some(infix_bp(*operator)),
    {
        let bp = match operator {
            InfixOperator::Access | InfixOperator::IndirectAccess => (33, 34),
            InfixOperator::Multiply | InfixOperator::Divide | InfixOperator::Modulo => (31, 32),
            InfixOperator::Add | InfixOperator::Subtract => (29, 30),
            InfixOperator::BitwiseShiftLeft | InfixOperator::BitwiseShiftRight => (27, 28),
            InfixOperator::Less | InfixOperator::LessEqual => (25, 26),
            InfixOperator::Greater | InfixOperator::GreaterEqual => (23, 24),
            InfixOperator::Equal | InfixOperator::NotEqual => (21, 22),
            InfixOperator::BitwiseAnd => (19, 20),
            InfixOperator::BitwiseXor => (17, 18),
            InfixOperator::BitwiseOr => (15, 16),
            InfixOperator::LogicalAnd => (15, 16),
            InfixOperator::LogicalOr => (11, 12),
            InfixOperator::Assign => (10, 9),
            InfixOperator::AddAssign | InfixOperator::SubtractAssign => (8, 7),
            InfixOperator::MultiplyAssign | InfixOperator::DivideAssign | InfixOperator::ModuloAssign => (6, 5),
            InfixOperator::BitwiseShiftLeftAssign | InfixOperator::BitwiseShiftRightAssign => (4, 3),
            InfixOperator::BitwiseAndAssign | InfixOperator::BitwiseXorAssign | InfixOperator::BitwiseOrAssign => (
                2,
                1,
            ),
        };
        Some(bp)
    }

    fn postfix_binding_power(operator: &PostfixOperator) -> (r: (u8, ()))
        ensures
            r.0 == postfix_bp(*operator),
    {
        match operator {
            PostfixOperator::Ternary => (11, ()),
            _ => (35, ()),
        }
    }

    /// The infix operator that a token is, if any.
    pub fn as_infix_operator(token: &Spanned<Token>) -> (r: Option<InfixOperator>)
        ensures
            r == infix_of(token.value),
    {
        match &token.value {
            Token::Punctuator(p) => match p {
                Punctuator::Dot => Some(InfixOperator::Access),
                Punctuator::Arrow => Some(InfixOperator::IndirectAccess),
                Punctuator::Asterisk => Some(InfixOperator::Multiply),
                Punctuator::Slash => Some(InfixOperator::Divide),
                Punctuator::Percent => Some(InfixOperator::Modulo),
                Punctuator::Plus => Some(InfixOperator::Add),
                Punctuator::Minus => Some(InfixOperator::Subtract),
                Punctuator::LeftLeft => Some(InfixOperator::BitwiseShiftLeft),
                Punctuator::RightRight => Some(InfixOperator::BitwiseShiftRight),
                Punctuator::Left => Some(InfixOperator::Less),
                Punctuator::LeftEqual => Some(InfixOperator::LessEqual),
                Punctuator::Right => Some(InfixOperator::Greater),
                Punctuator::RightEqual => Some(InfixOperator::GreaterEqual),
                Punctuator::EqualEqual => Some(InfixOperator::Equal),
                Punctuator::BangEqual => Some(InfixOperator::NotEqual),
                Punctuator::Ampersand => Some(InfixOperator::BitwiseAnd),
                Punctuator::Caret => Some(InfixOperator::BitwiseXor),
                Punctuator::Pipe => Some(InfixOperator::BitwiseOr),
                Punctuator::AndAnd => Some(InfixOperator::LogicalAnd),
                Punctuator::PipePipe => Some(InfixOperator::LogicalOr),
                Punctuator::Equal => Some(InfixOperator::Assign),
                Punctuator::PlusEqual => Some(InfixOperator::AddAssign),
                Punctuator::MinusEqual => Some(InfixOperator::SubtractAssign),
                Punctuator::AsteriskEqual => Some(InfixOperator::MultiplyAssign),
                Punctuator::SlashEqual => Some(InfixOperator::DivideAssign),
                Punctuator::PercentEqual => Some(InfixOperator::ModuloAssign),
                Punctuator::LeftLeftEqual => Some(InfixOperator::BitwiseShiftLeftAssign),
                Punctuator::RightRightEqual => Some(InfixOperator::BitwiseShiftRightAssign),
                Punctuator::AndEqual => Some(InfixOperator::BitwiseAndAssign),
                Punctuator::CaretEqual => Some(InfixOperator::BitwiseXorAssign),
                Punctuator::PipeEqual => Some(InfixOperator::BitwiseOrAssign),
                _ => None,
            },
            _ => None,
        }
    }

    /// The prefix operator that a token is, if any.
    pub fn as_prefix_operator(token: &Spanned<Token>) -> (r: Option<PrefixOperator>)
        ensures
            r == prefix_of(token.value),
    {
        match &token.value {
            Token::Punctuator(Punctuator::Minus) => Some(PrefixOperator::Minus),
            Token::Punctuator(Punctuator::Plus) => Some(PrefixOperator::Plus),
            Token::Punctuator(Punctuator::LeftParen) => Some(PrefixOperator::CastOrParen),
            Token::Punctuator(Punctuator::Tilde) => Some(PrefixOperator::BitwiseNot),
            Token::Punctuator(Punctuator::Asterisk) => Some(PrefixOperator::Dereference),
            Token::Punctuator(Punctuator::PlusPlus) => Some(PrefixOperator::Increment),
            Token::Punctuator(Punctuator::MinusMinus) => Some(PrefixOperator::Decrement),
            Token::Punctuator(Punctuator::Bang) => Some(PrefixOperator::LogicalNot),
            Token::Punctuator(Punctuator::Ampersand) => Some(PrefixOperator::AddressOf),
            Token::Keyword(Keyword::Sizeof) => Some(PrefixOperator::SizeOf),
            _ => None,
        }
    }

    /// The postfix operator that a token is, if any.
    pub fn as_postfix_operator(token: &Spanned<Token>) -> (r: Option<PostfixOperator>)
        ensures
            r == postfix_of(token.value),
    {
        match &token.value {
            Token::Punctuator(Punctuator::PlusPlus) => Some(PostfixOperator::Increment),
            Token::Punctuator(Punctuator::MinusMinus) => Some(PostfixOperator::Decrement),
            Token::Punctuator(Punctuator::LeftParen) => Some(PostfixOperator::Call),
            Token::Punctuator(Punctuator::LeftBracket) => Some(PostfixOperator::Subscript),
            Token::Punctuator(Punctuator::Question) => Some(PostfixOperator::Ternary),
            _ => None,
        }
    }

    /// Whether the next token can start a primary expression.
    pub fn can_start_primary_expression(&mut self) -> (r: bool)
        ensures
            final(self).scope_stack() == old(self).scope_stack(),
            final(self).reports() == old(self).reports(),
            final(self).pending() == old(self).pending(),
            r == primary_first(old(self).pending(), old(self).scope_stack()),
    {
        let (decided, answer, name) = match self.peek_token() {
            Ok(t) => match &t.value {
                Token::Identifier(i) => (false, false, Some(i.clone())),
                Token::Constant(_) => (true, true, None),
                Token::StringLiteral(_) => (true, true, None),
                Token::Punctuator(Punctuator::LeftParen) => (true, true, None),
                _ => (true, Self::as_prefix_operator(t).is_some(), None),
            },
            Err(_) => (true, false, None),
        };
        if decided {
            answer
        } else {
            match name {
                Some(i) => !self.is_typedef(i.as_str()),
                None => false,
            }
        }
    }
    /// An expression (binding power 0).
    pub fn parse_expression(&mut self) -> (r: PResult<Spanned<Expression>>)
        ensures
            final(self).scope_stack() == old(self).scope_stack(),
            final(self).pending().len() <= old(self).pending().len(),
            keeps(old(self).reports(), final(self).reports()),
            ok_first(old(self).pending()) && r is Ok ==> final(self).pending().len() < old(self).pending().len(),
            match parse_bp(old(self).pending(), 0, old(self).scope_stack()) {
                Some((e, rest, d)) => {
                    &&& r is Ok
                    &&& expr_view(r->Ok_0) == e
                    &&& final(self).pending() == rest
                    &&& final(self).reports().len() == old(self).reports().len() + d
                },
                None => r is Err,
            },
        decreases old(self).pending().len(), 1int,
    {
        self.parse_expression_bp(0)
    }

    /// An expression whose operators bind at least as tightly as `minimum_binding_power`;
    /// `Null` when no token comes next.
    pub fn parse_expression_bp(&mut self, minimum_binding_power: u8) -> (r: PResult<Spanned<Expression>>)
        ensures
            final(self).scope_stack() == old(self).scope_stack(),
            final(self).pending().len() <= old(self).pending().len(),
            keeps(old(self).reports(), final(self).reports()),
            ok_first(old(self).pending()) && r is Ok ==> final(self).pending().len() < old(self).pending().len(),
            match parse_bp(old(self).pending(), minimum_binding_power as int, old(self).scope_stack()) {
                Some((e, rest, d)) => {
                    &&& r is Ok
                    &&& expr_view(r->Ok_0) == e
                    &&& final(self).pending() == rest
                    &&& final(self).reports().len() == old(self).reports().len() + d
                },
                None => r is Err,
            },
        decreases old(self).pending().len(), 0int,
    {
        let ghost ts = self.pending();
        let ghost sc = self.scope_stack();
        let ghost r0 = self.reports();
        let ghost mbp = minimum_binding_power as int;
        let prefix = match self.peek_token() {
            Ok(t) => Self::as_prefix_operator(t),
            Err(_) => {
                return Ok(Spanned::new(Location::new(), Expression::Null));
            },
        };
        let mut lhs = match prefix {
            Some(prefix_operator) => {
                let ((), right_binding_power) = Self::prefix_binding_power(&prefix_operator);
                let op_token = self.next_token()?;
                let prefix_op_span = op_token.location;
                let can_start_type_name = self.can_start_typename();
                match (prefix_operator, can_start_type_name) {
                    (PrefixOperator::SizeOf, _) => {
                        return Err(simple_error(&prefix_op_span, "type names are not supported here"));
                    },
                    (PrefixOperator::CastOrParen, true) => {
                        return Err(simple_error(&prefix_op_span, "type names are not supported here"));
                    },
                    (PrefixOperator::CastOrParen, false) => {
                        let expr = self.parse_expression()?;
                        self.expect_token(Token::Punctuator(Punctuator::RightParen), "to close paren expression")?;
                        expr
                    },
                    _ => {
                        let expression = self.parse_expression_bp(right_binding_power)?;
                        let location = prefix_op_span.until(&expression.location);
                        location.into_spanned(
                            Expression::UnaryOp(Spanned::new(prefix_op_span, prefix_operator), Box::new(expression)),
                        )
                    },
                }
            },
            None => {
                let token = self.next_token()?;
                let location = token.location;
                match token.value {
                    Token::Identifier(identifier) => location.to_spanned(
                        Expression::Identifier(location.to_spanned(identifier)),
                    ),
                    Token::Constant(constant) => location.to_spanned(
                        Expression::IntConstant(location.to_spanned(constant)),
                    ),
                    Token::StringLiteral(string) => location.to_spanned(
                        Expression::StringLiteral(location.to_spanned(string)),
                    ),
                    _ => {
                        return Err(simple_error(&location, "unrecognized char while parsing expression"));
                    },
                }
            },
        };
        loop
            invariant
                self.scope_stack() == sc,
                sc == old(self).scope_stack(),
                ts == old(self).pending(),
                r0 == old(self).reports(),
                mbp == minimum_binding_power as int,
                self.pending().len() < ts.len(),
                keeps(r0, self.reports()),
                lhs_loop(self.pending(), expr_view(lhs), mbp, sc, (self.reports().len() - r0.len()) as nat)
                    == parse_bp(ts, mbp, sc),
            decreases self.pending().len(),
        {
            if self.next_is_semicolon() {
                return Ok(lhs);
            }
            let (postfix, infix) = match self.peek_token() {
                Ok(t) => (Self::as_postfix_operator(t), Self::as_infix_operator(t)),
                Err(_) => {
                    return Ok(lhs);
                },
            };
            match postfix {
                Some(post_fix_operator) => {
                    let (left_binding_power, ()) = Self::postfix_binding_power(&post_fix_operator);
                    if left_binding_power < minimum_binding_power {
                        return Ok(lhs);
                    }
                    let op_token = self.next_token()?;
                    let post_fix_operator_span = op_token.location;
                    lhs = match post_fix_operator {
                        PostfixOperator::Call => {
                            let args = match self.parse_argument_expression_list() {
                                Ok(a) => a,
                                Err(e) => {
                                    return Err(e);
                                },
                            };
                            let location = post_fix_operator_span.until(&lhs.location);
                            location.into_spanned(Expression::Call(Box::new(lhs), args))
                        },
                        PostfixOperator::Subscript => {
                            let expr = match self.parse_expression() {
                                Ok(x) => x,
                                Err(e) => {
                                    return Err(e);
                                },
                            };
                            let closer = self.expect_token(
                                Token::Punctuator(Punctuator::RightBracket),
                                "to close array subscript",
                            )?;
                            let location = lhs.location.until(&closer.location);
                            location.into_spanned(Expression::Subscript(Box::new(lhs), Box::new(expr)))
                        },
                        PostfixOperator::Ternary => {
                            let then = self.parse_expression()?;
                            let seperator = self.expect_token(
                                Token::Punctuator(Punctuator::Colon),
                                "to seperate ternary true and false branches",
                            )?;
                            let elze = self.parse_expression_bp(left_binding_power)?;
                            let location = lhs.location.until(&seperator.location);
                            location.into_spanned(Expression::Ternary(Box::new(lhs), Box::new(then), Box::new(elze)))
                        },
                        _ => {
                            let location = post_fix_operator_span.until(&lhs.location);
                            location.into_spanned(
                                Expression::PostfixOp(
                                    post_fix_operator_span.into_spanned(post_fix_operator),
                                    Box::new(lhs),
                                ),
                            )
                        },
                    };
                },
                None => match infix {
                    Some(infix_operator) => {
                        let (left_binding_power, right_binding_power) = match Self::infix_binding_power(
                            &infix_operator,
                        ) {
                            Some(bp) => bp,
                            None => (0, 0),
                        };
                        if left_binding_power < minimum_binding_power {
                            return Ok(lhs);
                        }
                        let op_token = self.next_token()?;
                        let infix_operator_span = op_token.location;
                        let rhs = match self.parse_expression_bp(right_binding_power) {
                            Ok(x) => x,
                            Err(e) => {
                                return Err(e);
                            },
                        };
                        let location = lhs.location.until(&rhs.location);
                        lhs = location.into_spanned(
                            Expression::BinOp(infix_operator_span.into_spanned(infix_operator), Box::new(lhs), Box::new(rhs)),
                        );
                    },
                    None => {
                        return Ok(lhs);
                    },
                },
            }
        }
    }

    /// The arguments of a call, after its `(`; a `)` right after a separating comma is
    /// reported as a trailing comma and ends the list.
    pub fn parse_argument_expression_list(&mut self) -> (r: PResult<Vec<Spanned<Expression>>>)
        ensures
            final(self).scope_stack() == old(self).scope_stack(),
            final(self).pending().len() <= old(self).pending().len(),
            keeps(old(self).reports(), final(self).reports()),
            match args_loop(old(self).pending(), seq![], old(self).scope_stack(), 0) {
                Some((args, rest, d)) => {
                    &&& r is Ok
                    &&& exprs_view(r->Ok_0@) == args
                    &&& final(self).pending() == rest
                    &&& final(self).reports().len() == old(self).reports().len() + d
                },
                None => r is Err,
            },
        decreases old(self).pending().len(), 2int,
    {
        let ghost ts = self.pending();
        let ghost sc = self.scope_stack();
        let ghost r0 = self.reports();
        let mut arguments: Vec<Spanned<Expression>> = Vec::new();
        loop
            invariant
                self.scope_stack() == sc,
                sc == old(self).scope_stack(),
                ts == old(self).pending(),
                r0 == old(self).reports(),
                self.pending().len() <= ts.len(),
                keeps(r0, self.reports()),
                args_loop(self.pending(), exprs_view(arguments@), sc, (self.reports().len() - r0.len()) as nat)
                    == args_loop(ts, seq![], sc, 0),
            decreases self.pending().len(),
        {
            proof {
                lemma_exprs_view(arguments@);
            }
            let closed = self.eat_if_next(Token::Punctuator(Punctuator::RightParen))?;
            let go_on = if !closed {
                true
            } else {
                self.consider_comma(&arguments)?
            };
            if !go_on {
                return Ok(arguments);
            }
            if arguments.len() > 0 {
                self.expect_token(Token::Punctuator(Punctuator::Comma), "to seperate arguments")?;
            }
            match self.eat_next(Token::Punctuator(Punctuator::RightParen))? {
                Some(token) => {
                    self.push_diagnostic(simple_error(&token.location, "Trailing comma is not allowed"));
                    return Ok(arguments);
                },
                None => {},
            }
            let e = self.parse_expression()?;
            proof {
                lemma_exprs_view_push(arguments@, e);
            }
            arguments.push(e);
        }
    }
}

} // verus!

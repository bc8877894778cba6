//! Tokens as the parser sees them, the stream that makes them from preprocessing
//! tokens, scopes of declared names, and the parser's token-level operations.
use crate::ast::{keyword_of, Keyword, PreprocessingToken, Punctuator, TokenView};
use crate::errors::{simple_error, PResult, Report};
use crate::macros::non_whitespace;
use crate::peek::{next_token_item, peek_token_item, pending_tokens, token_stream};
use crate::spanned::{Location, Spanned};
use crate::strings::{push_str, str_eq};
use peekmore::PeekMoreIterator;
use std::collections::VecDeque;
use std::vec::IntoIter;
use vstd::prelude::*;

verus! {

/// An integer constant: its digits and the base they are written in.
#[derive(Debug)]
pub struct IntConstant {
    pub number: String,
    pub base: u32,
}

/// A token as the parser sees it.
#[derive(Debug)]
pub enum Token {
    Identifier(String),
    Keyword(Keyword),
    StringLiteral(String),
    CharLiteral(String),
    Constant(IntConstant),
    Punctuator(Punctuator),
}

/// Whether two tokens are the same: same variant and same contents.
pub open spec fn same_token(a: Token, b: Token) -> bool {
    match (a, b) {
        (Token::Identifier(x), Token::Identifier(y)) => x@ == y@,
        (Token::Keyword(x), Token::Keyword(y)) => x == y,
        (Token::StringLiteral(x), Token::StringLiteral(y)) => x@ == y@,
        (Token::CharLiteral(x), Token::CharLiteral(y)) => x@ == y@,
        (Token::Constant(x), Token::Constant(y)) => x.number@ == y.number@ && x.base == y.base,
        (Token::Punctuator(x), Token::Punctuator(y)) => x == y,
        _ => false,
    }
}

/// Whether two tokens are of the same variant, whatever they hold.
pub open spec fn same_variant(a: Token, b: Token) -> bool {
    match (a, b) {
        (Token::Identifier(_), Token::Identifier(_)) => true,
        (Token::Keyword(_), Token::Keyword(_)) => true,
        (Token::StringLiteral(_), Token::StringLiteral(_)) => true,
        (Token::CharLiteral(_), Token::CharLiteral(_)) => true,
        (Token::Constant(_), Token::Constant(_)) => true,
        (Token::Punctuator(_), Token::Punctuator(_)) => true,
        _ => false,
    }
}

impl Token {
    /// Whether `self` and `other` are the same token.
    pub fn same_as(&self, other: &Token) -> (r: bool)
        ensures
            r == same_token(*self, *other),
    {
        match (self, other) {
            (Token::Identifier(x), Token::Identifier(y)) => str_eq(x.as_str(), y.as_str()),
            (Token::Keyword(x), Token::Keyword(y)) => *x == *y,
            (Token::StringLiteral(x), Token::StringLiteral(y)) => str_eq(x.as_str(), y.as_str()),
            (Token::CharLiteral(x), Token::CharLiteral(y)) => str_eq(x.as_str(), y.as_str()),
            (Token::Constant(x), Token::Constant(y)) => str_eq(x.number.as_str(), y.number.as_str())
                && x.base == y.base,
            (Token::Punctuator(x), Token::Punctuator(y)) => *x == *y,
            _ => false,
        }
    }

    /// Whether `self` and `other` are of the same variant.
    pub fn same_variant_as(&self, other: &Token) -> (r: bool)
        ensures
            r == same_variant(*self, *other),
    {
        match (self, other) {
            (Token::Identifier(_), Token::Identifier(_)) => true,
            (Token::Keyword(_), Token::Keyword(_)) => true,
            (Token::StringLiteral(_), Token::StringLiteral(_)) => true,
            (Token::CharLiteral(_), Token::CharLiteral(_)) => true,
            (Token::Constant(_), Token::Constant(_)) => true,
            (Token::Punctuator(_), Token::Punctuator(_)) => true,
            _ => false,
        }
    }
}

/// Whether `c` is one of the integer suffix letters `u`, `U`, `l`, `L`.
pub open spec fn is_suffix_letter(c: char) -> bool {
    c == 'u' || c == 'U' || c == 'l' || c == 'L'
}

/// `s` without its trailing integer suffix letters.
pub open spec fn strip_suffix(s: Seq<char>) -> Seq<char>
    decreases s.len(),
{
    if s.len() > 0 && is_suffix_letter(s.last()) {
        strip_suffix(s.drop_last())
    } else {
        s
    }
}

/// The value of a digit character (`0`-`9`, then `a`/`A` = 10 up to `z`/`Z` = 35).
pub open spec fn digit_value(c: char) -> Option<u32> {
    if '0' <= c && c <= '9' {
        Some((c as u32 - '0' as u32) as u32)
    } else if 'a' <= c && c <= 'z' {
        Some((c as u32 - 'a' as u32 + 10) as u32)
    } else if 'A' <= c && c <= 'Z' {
        Some((c as u32 - 'A' as u32 + 10) as u32)
    } else {
        None
    }
}

/// Whether every character of `s` is a digit of base `base`.
pub open spec fn all_digits(s: Seq<char>, base: u32) -> bool {
    forall|i: int| 0 <= i < s.len() ==> ((#[trigger] digit_value(s[i])) matches Some(v) && v < base)
}

/// How a preprocessing number reads as an integer constant: its suffix letters dropped,
/// `0x`/`0X` and hexadecimal digits, a leading `0` and octal digits, or decimal digits;
/// the digits and the base, or `None` when it is no integer constant.
pub open spec fn pp_number(s: Seq<char>) -> Option<(Seq<char>, u32)> {
    let core = strip_suffix(s);
    if core.len() >= 2 && core[0] == '0' && (core[1] == 'x' || core[1] == 'X') {
        let digits = core.skip(2);
        if digits.len() > 0 && all_digits(digits, 16) {
            Some((digits, 16u32))
        } else {
            None
        }
    } else if core.len() >= 1 && core[0] == '0' {
        if all_digits(core, 8) {
            Some((core, 8u32))
        } else {
            None
        }
    } else if core.len() >= 1 && all_digits(core, 10) {
        Some((core, 10u32))
    } else {
        None
    }
}

/// What the token stream makes of one preprocessing token (whitespace aside).
pub open spec fn converted(t: Spanned<PreprocessingToken>, r: PResult<Spanned<Token>>) -> bool {
    match t.value {
        PreprocessingToken::Identifier(s) => {
            &&& r is Ok
            &&& r->Ok_0.location == t.location
            &&& match keyword_of(s@) {
                Some(k) => r->Ok_0.value == Token::Keyword(k),
                None => r->Ok_0.value is Identifier && r->Ok_0.value->Identifier_0@ == s@,
            }
        },
        PreprocessingToken::BlueIdentifier(s) => {
            &&& r is Ok
            &&& r->Ok_0.location == t.location
            &&& r->Ok_0.value is Identifier
            &&& r->Ok_0.value->Identifier_0@ == s@
        },
        PreprocessingToken::StringLiteral(s) => {
            &&& r is Ok
            &&& r->Ok_0.location == t.location
            &&& r->Ok_0.value is StringLiteral
            &&& r->Ok_0.value->StringLiteral_0@ == s@
        },
        PreprocessingToken::CharLiteral(s) => {
            &&& r is Ok
            &&& r->Ok_0.location == t.location
            &&& r->Ok_0.value is CharLiteral
            &&& r->Ok_0.value->CharLiteral_0@ == s@
        },
        PreprocessingToken::PPNumber(n) => match pp_number(n@) {
            Some((digits, base)) => {
                &&& r is Ok
                &&& r->Ok_0.location == t.location
                &&& r->Ok_0.value is Constant
                &&& r->Ok_0.value->Constant_0.number@ == digits
                &&& r->Ok_0.value->Constant_0.base == base
            },
            None => r is Err,
        },
        PreprocessingToken::Punctuator(p) => {
            &&& r is Ok
            &&& r->Ok_0.location == t.location
            &&& r->Ok_0.value == Token::Punctuator(p)
        },
        _ => r is Err,
    }
}

/// What the token stream makes of a token, read on its model (see `converted`).
pub open spec fn converted_view(t: Spanned<TokenView>, r: PResult<Spanned<Token>>) -> bool {
    match t.value {
        TokenView::Identifier(s) => {
            &&& r is Ok
            &&& r->Ok_0.location == t.location
            &&& match keyword_of(s) {
                Some(k) => r->Ok_0.value == Token::Keyword(k),
                None => r->Ok_0.value is Identifier && r->Ok_0.value->Identifier_0@ == s,
            }
        },
        TokenView::BlueIdentifier(s) => {
            &&& r is Ok
            &&& r->Ok_0.location == t.location
            &&& r->Ok_0.value is Identifier
            &&& r->Ok_0.value->Identifier_0@ == s
        },
        TokenView::StringLiteral(s) => {
            &&& r is Ok
            &&& r->Ok_0.location == t.location
            &&& r->Ok_0.value is StringLiteral
            &&& r->Ok_0.value->StringLiteral_0@ == s
        },
        TokenView::CharLiteral(s) => {
            &&& r is Ok
            &&& r->Ok_0.location == t.location
            &&& r->Ok_0.value is CharLiteral
            &&& r->Ok_0.value->CharLiteral_0@ == s
        },
        TokenView::PPNumber(n) => match pp_number(n) {
            Some((digits, base)) => {
                &&& r is Ok
                &&& r->Ok_0.location == t.location
                &&& r->Ok_0.value is Constant
                &&& r->Ok_0.value->Constant_0.number@ == digits
                &&& r->Ok_0.value->Constant_0.base == base
            },
            None => r is Err,
        },
        TokenView::Punctuator(p) => {
            &&& r is Ok
            &&& r->Ok_0.location == t.location
            &&& r->Ok_0.value == Token::Punctuator(p)
        },
        _ => r is Err,
    }
}

/// What the token stream makes of a whole sequence: one item per token that is not whitespace.
pub open spec fn converted_all(ts: Seq<Spanned<PreprocessingToken>>, out: Seq<PResult<Spanned<Token>>>) -> bool {
    let nw = non_whitespace(ts);
    &&& out.len() == nw.len()
    &&& forall|i: int| 0 <= i < out.len() ==> converted(#[trigger] nw[i], out[i])
}

/// The characters of `s` from index `i` on, as a `String`.
fn string_from(s: &str, i: usize) -> (r: String)
    requires
        i <= s@.len(),
    ensures
        r@ == s@.skip(i as int),
{
    let chars = crate::prelexer::str_chars(s);
    let mut out = String::new();
    let mut j = i;
    while j < chars.len()
        invariant
            chars@ == s@,
            i <= j <= chars@.len(),
            out@ == s@.subrange(i as int, j as int),
        decreases chars@.len() - j,
    {
        crate::strings::push_char(&mut out, chars[j]);
        j += 1;
    }
    out
}

/// The value of a digit character, as `digit_value` says.
pub fn digit_of(c: char) -> (r: Option<u32>)
    ensures
        r == digit_value(c),
{
    if '0' <= c && c <= '9' {
        Some((c as u32) - ('0' as u32))
    } else if 'a' <= c && c <= 'z' {
        Some((c as u32) - ('a' as u32) + 10)
    } else if 'A' <= c && c <= 'Z' {
        Some((c as u32) - ('A' as u32) + 10)
    } else {
        None
    }
}

/// Whether every character of `s` from index `from` on is a digit of base `base`.
fn digits_from(s: &Vec<char>, from: usize, base: u32) -> (r: bool)
    requires
        from <= s@.len(),
    ensures
        r == all_digits(s@.skip(from as int), base),
{
    let mut i = from;
    while i < s.len()
        invariant
            from <= i <= s@.len(),
            all_digits(s@.subrange(from as int, i as int), base),
        decreases s@.len() - i,
    {
        match digit_of(s[i]) {
            Some(v) => {
                if v >= base {
                    assert(!all_digits(s@.skip(from as int), base)) by {
                        assert(s@.skip(from as int)[i - from] == s@[i as int]);
                    }
                    return false;
                }
            },
            None => {
                assert(!all_digits(s@.skip(from as int), base)) by {
                    assert(s@.skip(from as int)[i - from] == s@[i as int]);
                }
                return false;
            },
        }
        assert forall|k: int| 0 <= k < i + 1 - from implies ((#[trigger] digit_value(
            s@.subrange(from as int, i + 1)[k],
        )) matches Some(v) && v < base) by {
            if k < i - from {
                assert(s@.subrange(from as int, i + 1)[k] == s@.subrange(from as int, i as int)[k]);
            }
        }
        i += 1;
    }
    assert(s@.subrange(from as int, i as int) =~= s@.skip(from as int));
    true
}

/// A stream that turns preprocessing tokens into parser tokens, dropping whitespace.
#[derive(Debug)]
pub struct TokenStream {
    pub iter: VecDeque<Spanned<PreprocessingToken>>,
}

impl TokenStream {
    pub fn new(tokens: Vec<Spanned<PreprocessingToken>>) -> (r: Self)
        ensures
            r.iter@ == tokens@,
    {
        TokenStream { iter: crate::prepend::deque_of(tokens) }
    }

    /// The parser token for the next token that is not whitespace.
    pub fn next(&mut self) -> (r: Option<PResult<Spanned<Token>>>)
        ensures
            non_whitespace(old(self).iter@).len() == 0 ==> r is None,
            non_whitespace(old(self).iter@).len() > 0 ==> {
                &&& r is Some
                &&& converted(non_whitespace(old(self).iter@)[0], r->0)
                &&& non_whitespace(final(self).iter@) == non_whitespace(old(self).iter@).drop_first()
            },
    {
        loop
            invariant
                non_whitespace(self.iter@) == non_whitespace(old(self).iter@),
            decreases self.iter@.len(),
        {
            let ghost before = self.iter@;
            let t = match self.iter.pop_front() {
                Some(t) => t,
                None => {
                    assert(non_whitespace(before) =~= Seq::<Spanned<PreprocessingToken>>::empty());
                    return None;
                },
            };
            proof {
                assert(before =~= seq![t] + self.iter@);
                self.iter@.lemma_filter_prepend(t, |t: Spanned<PreprocessingToken>| !(t.value is Whitespace));
            }
            let location = t.location;
            match t.value {
                PreprocessingToken::Whitespace(_) => {},
                PreprocessingToken::Identifier(identifier) => {
                    return match Keyword::from_str(identifier.as_str()) {
                        Some(kw) => Some(Ok(Spanned::new(location, Token::Keyword(kw)))),
                        None => Some(Ok(Spanned::new(location, Token::Identifier(identifier)))),
                    };
                },
                PreprocessingToken::BlueIdentifier(identifier) => {
                    return Some(Ok(Spanned::new(location, Token::Identifier(identifier))));
                },
                PreprocessingToken::StringLiteral(string) => {
                    return Some(Ok(Spanned::new(location, Token::StringLiteral(string))));
                },
                PreprocessingToken::CharLiteral(string) => {
                    return Some(Ok(Spanned::new(location, Token::CharLiteral(string))));
                },
                PreprocessingToken::PPNumber(number) => {
                    return match self.parse_pp_number(&location, number) {
                        Ok(ic) => Some(Ok(Spanned::new(location, Token::Constant(ic)))),
                        Err(e) => Some(Err(e)),
                    };
                },
                PreprocessingToken::Punctuator(punc) => {
                    return Some(Ok(Spanned::new(location, Token::Punctuator(punc))));
                },
                _ => {
                    return Some(Err(simple_error(&location, "unexpected token in parser input")));
                },
            }
        }
    }

    /// Reads a preprocessing number as an integer constant.
    pub fn parse_pp_number(&mut self, location: &Location, number: String) -> (r: PResult<IntConstant>)
        ensures
            final(self).iter@ == old(self).iter@,
            match pp_number(number@) {
                Some((digits, base)) => r matches Ok(c) && c.number@ == digits && c.base == base,
                None => r is Err,
            },
    {
        let chars = crate::prelexer::str_chars(number.as_str());
        let mut end = chars.len();
        assert(chars@.take(end as int) =~= number@);
        while end > 0 && (chars[end - 1] == 'u' || chars[end - 1] == 'U' || chars[end - 1] == 'l' || chars[end
            - 1] == 'L')
            invariant
                chars@ == number@,
                end <= chars@.len(),
                strip_suffix(chars@.take(end as int)) == strip_suffix(number@),
            decreases end,
        {
            assert(chars@.take(end as int).drop_last() =~= chars@.take(end - 1));
            end -= 1;
        }
        let ghost core = chars@.take(end as int);
        assert(strip_suffix(core) == core);
        let mut core_chars: Vec<char> = Vec::new();
        let mut k: usize = 0;
        while k < end
            invariant
                chars@ == number@,
                end <= chars@.len(),
                k <= end,
                core_chars@ == chars@.take(k as int),
            decreases end - k,
        {
            core_chars.push(chars[k]);
            assert(core_chars@ =~= chars@.take(k + 1));
            k += 1;
        }
        assert(core_chars@ =~= core);
        let core_str = crate::strings::string_of_chars(&core_chars);
        if end >= 2 && core_chars[0] == '0' && (core_chars[1] == 'x' || core_chars[1] == 'X') {
            if end > 2 && digits_from(&core_chars, 2, 16) {
                Ok(IntConstant { number: string_from(core_str.as_str(), 2), base: 16 })
            } else {
                Err(simple_error(location, "invalid hexadecimal constant"))
            }
        } else if end >= 1 && core_chars[0] == '0' {
            assert(core_chars@.skip(0) =~= core_chars@);
            if digits_from(&core_chars, 0, 8) {
                Ok(IntConstant { number: core_str, base: 8 })
            } else {
                Err(simple_error(location, "invalid octal constant"))
            }
        } else {
            assert(core_chars@.skip(0) =~= core_chars@);
            if end >= 1 && digits_from(&core_chars, 0, 10) {
                Ok(IntConstant { number: core_str, base: 10 })
            } else {
                Err(simple_error(location, "invalid integer constant"))
            }
        }
    }

    /// Every item the stream makes, in order.
    pub fn collect_all(&mut self) -> (r: Vec<PResult<Spanned<Token>>>)
        ensures
            converted_all(old(self).iter@, r@),
    {
        let ghost nw0 = non_whitespace(self.iter@);
        let mut out: Vec<PResult<Spanned<Token>>> = Vec::new();
        assert(nw0.skip(0) =~= nw0);
        loop
            invariant
                out@.len() + non_whitespace(self.iter@).len() == nw0.len(),
                non_whitespace(self.iter@) == nw0.skip(out@.len() as int),
                forall|i: int| 0 <= i < out@.len() ==> converted(#[trigger] nw0[i], out@[i]),
                nw0 == non_whitespace(old(self).iter@),
            decreases non_whitespace(self.iter@).len(),
        {
            let ghost before = non_whitespace(self.iter@);
            match self.next() {
                Some(item) => {
                    assert(before[0] == nw0[out@.len() as int]);
                    out.push(item);
                    assert(non_whitespace(self.iter@) =~= nw0.skip(out@.len() as int));
                },
                None => {
                    return out;
                },
            }
        }
    }
}

/// What a declared name stands for.
#[derive(Debug, Clone, Copy, PartialEq, Eq, Structural)]
pub enum IdentifierKind {
    Typename,
    Identifier,
}

#[derive(Debug, Clone, Copy, PartialEq, Eq, Structural)]
pub enum ScopeKind {
    Global,
    TranslationUnit,
    Block,
}

/// The names declared in one scope; a later entry for a name hides an earlier one.
#[derive(Debug)]
pub struct Scope {
    pub identifiers: Vec<(String, IdentifierKind)>,
    pub kind: ScopeKind,
}

/// What `name` is declared as in a scope's entries: the last entry for it.
pub open spec fn kind_in(entries: Seq<(String, IdentifierKind)>, name: Seq<char>) -> Option<IdentifierKind>
    decreases entries.len(),
{
    if entries.len() == 0 {
        None
    } else if entries.last().0@ == name {
        Some(entries.last().1)
    } else {
        kind_in(entries.drop_last(), name)
    }
}

/// Whether some scope declares `name` as `kind`.
pub open spec fn declared_as(scopes: Seq<Scope>, name: Seq<char>, kind: IdentifierKind) -> bool {
    exists|i: int| 0 <= i < scopes.len() && kind_in(#[trigger] scopes[i].identifiers@, name) == Some(kind)
}

/// Whether some scope declares `name` at all.
pub open spec fn declared(scopes: Seq<Scope>, name: Seq<char>) -> bool {
    exists|i: int| 0 <= i < scopes.len() && kind_in(#[trigger] scopes[i].identifiers@, name) is Some
}

impl Scope {
    /// What `name` is declared as here.
    pub fn lookup(&self, name: &str) -> (r: Option<IdentifierKind>)
        ensures
            r == kind_in(self.identifiers@, name@),
    {
        let mut i = self.identifiers.len();
        assert(self.identifiers@.take(i as int) =~= self.identifiers@);
        while i > 0
            invariant
                i <= self.identifiers@.len(),
                kind_in(self.identifiers@, name@) == kind_in(self.identifiers@.take(i as int), name@),
            decreases i,
        {
            assert(self.identifiers@.take(i as int).drop_last() =~= self.identifiers@.take(i - 1));
            if str_eq(self.identifiers[i - 1].0.as_str(), name) {
                return Some(self.identifiers[i - 1].1);
            }
            i -= 1;
        }
        None
    }
}

/// Whether `k` starts a type name as a type specifier or qualifier.
pub open spec fn is_type_keyword(k: Keyword) -> bool {
    match k {
        Keyword::Void | Keyword::Char | Keyword::Short | Keyword::Int | Keyword::Long | Keyword::Float
        | Keyword::Double | Keyword::Signed | Keyword::Unsigned | Keyword::Bool | Keyword::Complex
        | Keyword::Struct | Keyword::Union | Keyword::Enum | Keyword::Const | Keyword::Restrict
        | Keyword::Volatile => true,
        _ => false,
    }
}

/// Whether the first pending item is a token.
pub open spec fn ok_first(ts: Seq<PResult<Spanned<Token>>>) -> bool {
    ts.len() > 0 && ts[0] is Ok
}

/// The first pending token.
pub open spec fn first_tok(ts: Seq<PResult<Spanned<Token>>>) -> Spanned<Token> {
    ts[0]->Ok_0
}

/// Whether the first pending item is the punctuator `p`.
pub open spec fn first_is(ts: Seq<PResult<Spanned<Token>>>, p: Punctuator) -> bool {
    ok_first(ts) && first_tok(ts).value == Token::Punctuator(p)
}

/// Whether the first pending token can start a type name.
pub open spec fn typename_first(ts: Seq<PResult<Spanned<Token>>>, scopes: Seq<Scope>) -> bool {
    ok_first(ts) && match first_tok(ts).value {
        Token::Keyword(k) => is_type_keyword(k),
        Token::Identifier(i) => declared_as(scopes, i@, IdentifierKind::Typename),
        _ => false,
    }
}

/// Whether `new` keeps every diagnostic of `old` in place (and perhaps adds more after them).
pub open spec fn keeps(old: Seq<Report>, new: Seq<Report>) -> bool {
    &&& old.len() <= new.len()
    &&& forall|i: int| 0 <= i < old.len() ==> #[trigger] new[i] == old[i]
}

/// A parser over a stream of tokens, with a stack of scopes of declared names.
#[derive(Debug)]
pub struct Parser {
    pub diagnostics: Vec<Report>,
    pub(crate) token_stream: PeekMoreIterator<IntoIter<PResult<Spanned<Token>>>>,
    pub(crate) last_location: Location,
    pub(crate) scopes: Vec<Scope>,
}

impl Parser {
    /// The items that have not been handed out yet.
    pub closed spec fn pending(&self) -> Seq<PResult<Spanned<Token>>> {
        pending_tokens(self.token_stream)
    }

    /// The diagnostics reported so far.
    pub closed spec fn reports(&self) -> Seq<Report> {
        self.diagnostics@
    }

    /// The stack of scopes, innermost last.
    pub closed spec fn scope_stack(&self) -> Seq<Scope> {
        self.scopes@
    }

    /// A parser over the tokens made from `tokens`, with one empty global scope.
    pub fn new(tokens: Vec<Spanned<PreprocessingToken>>) -> (r: Self)
        ensures
            converted_all(tokens@, r.pending()),
            r.reports().len() == 0,
            r.scope_stack().len() == 1,
            r.scope_stack()[0].identifiers@.len() == 0,
            r.scope_stack()[0].kind == ScopeKind::Global,
    {
        let mut t = TokenStream::new(tokens);
        let items = t.collect_all();
        let mut scopes: Vec<Scope> = Vec::new();
        scopes.push(Scope { identifiers: Vec::new(), kind: ScopeKind::Global });
        Parser { token_stream: token_stream(items), last_location: Location::new(), diagnostics: Vec::new(), scopes }
    }

    /// Hands out the next token; an error at the end or when the next item is one.
    pub fn next_token(&mut self) -> (r: PResult<Spanned<Token>>)
        ensures
            final(self).scope_stack() == old(self).scope_stack(),
            final(self).reports() == old(self).reports(),
            old(self).pending().len() == 0 ==> r is Err && final(self).pending() == old(self).pending(),
            old(self).pending().len() > 0 ==> final(self).pending() == old(self).pending().drop_first(),
            ok_first(old(self).pending()) ==> r == old(self).pending()[0],
            !ok_first(old(self).pending()) ==> r is Err,
    {
        match next_token_item(&mut self.token_stream) {
            Some(Ok(token)) => {
                self.last_location = token.location.duplicate();
                Ok(token)
            },
            Some(Err(e)) => Err(e),
            None => Err(simple_error(&self.last_location, "Unexpected EOF!")),
        }
    }

    /// The `n`-th pending token, nothing consumed; an error when there is none or it is an error.
    pub fn peek_token_nth(&mut self, n: usize) -> (r: PResult<&Spanned<Token>>)
        requires
            n < 4,
        ensures
            final(self).scope_stack() == old(self).scope_stack(),
            final(self).reports() == old(self).reports(),
            final(self).pending() == old(self).pending(),
            n < old(self).pending().len() && old(self).pending()[n as int] is Ok ==> (r matches Ok(t) && *t
                == old(self).pending()[n as int]->Ok_0),
            !(n < old(self).pending().len() && old(self).pending()[n as int] is Ok) ==> r is Err,
    {
        match peek_token_item(&mut self.token_stream, n) {
            Some(Ok(token)) => {
                self.last_location = token.location.duplicate();
                Ok(token)
            },
            Some(Err(e)) => Err(e.duplicate()),
            None => Err(simple_error(&self.last_location, "Unexpected EOF while peeking!")),
        }
    }

    /// The next pending token, nothing consumed.
    pub fn peek_token(&mut self) -> (r: PResult<&Spanned<Token>>)
        ensures
            final(self).scope_stack() == old(self).scope_stack(),
            final(self).reports() == old(self).reports(),
            final(self).pending() == old(self).pending(),
            ok_first(old(self).pending()) ==> (r matches Ok(t) && *t == first_tok(old(self).pending())),
            !ok_first(old(self).pending()) ==> r is Err,
    {
        self.peek_token_nth(0)
    }
    /// Consumes the next token when it is `expected`; says whether it did.
    pub fn eat_if_next(&mut self, expected: Token) -> (r: PResult<bool>)
        ensures
            final(self).scope_stack() == old(self).scope_stack(),
            final(self).reports() == old(self).reports(),
            !ok_first(old(self).pending()) ==> r is Err && final(self).pending() == old(self).pending(),
            ok_first(old(self).pending()) && same_token(first_tok(old(self).pending()).value, expected) ==> r
                == Ok::<bool, Report>(true) && final(self).pending() == old(self).pending().drop_first(),
            ok_first(old(self).pending()) && !same_token(first_tok(old(self).pending()).value, expected) ==> r
                == Ok::<bool, Report>(false) && final(self).pending() == old(self).pending(),
    {
        let same = match self.peek_token() {
            Ok(next) => Ok(next.value.same_as(&expected)),
            Err(e) => Err(e),
        };
        match same {
            Ok(true) => {
                let _ = self.next_token();
                Ok(true)
            },
            Ok(false) => Ok(false),
            Err(e) => Err(e),
        }
    }

    /// Consumes and hands out the next token when it is `expected`.
    pub fn eat_next(&mut self, expected: Token) -> (r: PResult<Option<Spanned<Token>>>)
        ensures
            final(self).scope_stack() == old(self).scope_stack(),
            final(self).reports() == old(self).reports(),
            !ok_first(old(self).pending()) ==> r is Err && final(self).pending() == old(self).pending(),
            ok_first(old(self).pending()) && same_token(first_tok(old(self).pending()).value, expected) ==> r
                == Ok::<Option<Spanned<Token>>, Report>(Some(first_tok(old(self).pending())))
                && final(self).pending() == old(self).pending().drop_first(),
            ok_first(old(self).pending()) && !same_token(first_tok(old(self).pending()).value, expected) ==> r
                == Ok::<Option<Spanned<Token>>, Report>(None) && final(self).pending() == old(self).pending(),
    {
        let same = match self.peek_token() {
            Ok(next) => Ok(next.value.same_as(&expected)),
            Err(e) => Err(e),
        };
        match same {
            Ok(true) => match self.next_token() {
                Ok(t) => Ok(Some(t)),
                Err(e) => Err(e),
            },
            Ok(false) => Ok(None),
            Err(e) => Err(e),
        }
    }

    /// Consumes the next token when it is of the same variant as `t`; says whether it did.
    pub fn eat_if_same_variant(&mut self, t: Token) -> (r: PResult<bool>)
        ensures
            final(self).scope_stack() == old(self).scope_stack(),
            final(self).reports() == old(self).reports(),
            !ok_first(old(self).pending()) ==> r is Err && final(self).pending() == old(self).pending(),
            ok_first(old(self).pending()) && same_variant(first_tok(old(self).pending()).value, t) ==> r
                == Ok::<bool, Report>(true) && final(self).pending() == old(self).pending().drop_first(),
            ok_first(old(self).pending()) && !same_variant(first_tok(old(self).pending()).value, t) ==> r
                == Ok::<bool, Report>(false) && final(self).pending() == old(self).pending(),
    {
        let same = match self.peek_token() {
            Ok(next) => Ok(next.value.same_variant_as(&t)),
            Err(e) => Err(e),
        };
        match same {
            Ok(true) => {
                let _ = self.next_token();
                Ok(true)
            },
            Ok(false) => Ok(false),
            Err(e) => Err(e),
        }
    }

    /// Whether the next token is `t`; nothing consumed.
    pub fn peek_matches(&mut self, t: Token) -> (r: PResult<bool>)
        ensures
            final(self).scope_stack() == old(self).scope_stack(),
            final(self).reports() == old(self).reports(),
            final(self).pending() == old(self).pending(),
            !ok_first(old(self).pending()) ==> r is Err,
            ok_first(old(self).pending()) ==> r == Ok::<bool, Report>(
                same_token(first_tok(old(self).pending()).value, t),
            ),
    {
        match self.peek_token() {
            Ok(next) => Ok(next.value.same_as(&t)),
            Err(e) => Err(e),
        }
    }

    /// Hands out the next token when it is `t`, and an error (with `msg`) otherwise.
    pub fn expect_token(&mut self, t: Token, msg: &str) -> (r: PResult<Spanned<Token>>)
        ensures
            final(self).scope_stack() == old(self).scope_stack(),
            final(self).reports() == old(self).reports(),
            old(self).pending().len() == 0 ==> final(self).pending() == old(self).pending(),
            old(self).pending().len() > 0 ==> final(self).pending() == old(self).pending().drop_first(),
            ok_first(old(self).pending()) && same_token(first_tok(old(self).pending()).value, t) ==> r == Ok::<
                Spanned<Token>,
                Report,
            >(first_tok(old(self).pending())),
            !(ok_first(old(self).pending()) && same_token(first_tok(old(self).pending()).value, t)) ==> r is Err,
    {
        let location = self.last_location.duplicate();
        match self.next_token() {
            Ok(stoken) => {
                if stoken.value.same_as(&t) {
                    Ok(stoken)
                } else {
                    let mut message = String::new();
                    match &stoken.value {
                        Token::Identifier(i) => {
                            if self.is_typedef(i.as_str()) {
                                push_str(&mut message, "expected token, found typename ");
                            } else {
                                push_str(&mut message, "expected token, found non typename ");
                            }
                            push_str(&mut message, i.as_str());
                        },
                        _ => push_str(&mut message, "expected token, found another token"),
                    }
                    push_str(&mut message, ": ");
                    push_str(&mut message, msg);
                    Err(simple_error(&stoken.location, message.as_str()))
                }
            },
            Err(_) => {
                let mut message = String::new();
                push_str(&mut message, "expected token, found EOF: ");
                push_str(&mut message, msg);
                Err(simple_error(&location, message.as_str()))
            },
        }
    }

    /// Records a diagnostic.
    pub fn push_diagnostic(&mut self, diagnostic: Report)
        ensures
            final(self).scope_stack() == old(self).scope_stack(),
            final(self).pending() == old(self).pending(),
            final(self).reports() == old(self).reports().push(diagnostic),
    {
        self.diagnostics.push(diagnostic);
    }

    /// Declares `name` as a type name in the innermost scope; an error when it is already an object.
    pub fn declare_typedef(&mut self, name: &str) -> (r: PResult<()>)
        requires
            old(self).scope_stack().len() > 0,
        ensures
            final(self).pending() == old(self).pending(),
            final(self).reports() == old(self).reports(),
            r is Err <==> declared_as(old(self).scope_stack(), name@, IdentifierKind::Identifier),
            r is Err ==> final(self).scope_stack() == old(self).scope_stack(),
            r is Ok ==> {
                &&& final(self).scope_stack().len() == old(self).scope_stack().len()
                &&& final(self).scope_stack().drop_last() == old(self).scope_stack().drop_last()
                &&& final(self).scope_stack().last().kind == old(self).scope_stack().last().kind
                &&& kind_in(final(self).scope_stack().last().identifiers@, name@) == Some(IdentifierKind::Typename)
                &&& forall|other: Seq<char>|
                    other != name@ ==> kind_in(#[trigger] final(self).scope_stack().last().identifiers@, other)
                        == kind_in(old(self).scope_stack().last().identifiers@, other)
            },
    {
        if self.is_object(name) {
            let mut message = String::new();
            push_str(&mut message, name);
            push_str(&mut message, " is already declared as an object");
            return Err(simple_error(&self.last_location, message.as_str()));
        }
        self.declare(name, IdentifierKind::Typename);
        proof {
            let entries = self.scopes@.last().identifiers@;
            assert(entries.drop_last() =~= old(self).scopes@.last().identifiers@);
        }
        Ok(())
    }

    /// Declares `name` as an object in the innermost scope; an error when it is already a type name.
    pub fn declare_identifier(&mut self, name: &str) -> (r: PResult<()>)
        requires
            old(self).scope_stack().len() > 0,
        ensures
            final(self).pending() == old(self).pending(),
            final(self).reports() == old(self).reports(),
            r is Err <==> declared_as(old(self).scope_stack(), name@, IdentifierKind::Typename),
            r is Err ==> final(self).scope_stack() == old(self).scope_stack(),
            r is Ok ==> {
                &&& final(self).scope_stack().len() == old(self).scope_stack().len()
                &&& final(self).scope_stack().drop_last() == old(self).scope_stack().drop_last()
                &&& final(self).scope_stack().last().kind == old(self).scope_stack().last().kind
                &&& kind_in(final(self).scope_stack().last().identifiers@, name@) == Some(IdentifierKind::Identifier)
                &&& forall|other: Seq<char>|
                    other != name@ ==> kind_in(#[trigger] final(self).scope_stack().last().identifiers@, other)
                        == kind_in(old(self).scope_stack().last().identifiers@, other)
            },
    {
        if self.is_typedef(name) {
            let mut message = String::new();
            push_str(&mut message, name);
            push_str(&mut message, " is already declared as a typedef");
            return Err(simple_error(&self.last_location, message.as_str()));
        }
        self.declare(name, IdentifierKind::Identifier);
        proof {
            let entries = self.scopes@.last().identifiers@;
            assert(entries.drop_last() =~= old(self).scopes@.last().identifiers@);
        }
        Ok(())
    }

    /// Records `name` as `kind` in the innermost scope.
    fn declare(&mut self, name: &str, kind: IdentifierKind)
        requires
            old(self).scopes@.len() > 0,
        ensures
            final(self).token_stream == old(self).token_stream,
            final(self).diagnostics@ == old(self).diagnostics@,
            final(self).scopes@.len() == old(self).scopes@.len(),
            final(self).scopes@.drop_last() == old(self).scopes@.drop_last(),
            final(self).scopes@.last().kind == old(self).scopes@.last().kind,
            final(self).scopes@.last().identifiers@ == old(self).scopes@.last().identifiers@.push(
                (final(self).scopes@.last().identifiers@.last().0, kind),
            ),
            final(self).scopes@.last().identifiers@.last().0@ == name@,
    {
        let mut scope = self.scopes.pop().unwrap();
        scope.identifiers.push((String::from_str(name), kind));
        self.scopes.push(scope);
        assert(self.scopes@.drop_last() =~= old(self).scopes@.drop_last());
    }

    /// Whether some scope declares `identifier` as a type name.
    pub fn is_typedef(&self, identifier: &str) -> (r: bool)
        ensures
            r == declared_as(self.scope_stack(), identifier@, IdentifierKind::Typename),
    {
        self.is_declared_as(identifier, IdentifierKind::Typename)
    }

    /// Whether some scope declares `identifier` as an object.
    pub fn is_object(&self, identifier: &str) -> (r: bool)
        ensures
            r == declared_as(self.scope_stack(), identifier@, IdentifierKind::Identifier),
    {
        self.is_declared_as(identifier, IdentifierKind::Identifier)
    }

    fn is_declared_as(&self, identifier: &str, kind: IdentifierKind) -> (r: bool)
        ensures
            r == declared_as(self.scopes@, identifier@, kind),
    {
        let mut i: usize = 0;
        while i < self.scopes.len()
            invariant
                i <= self.scopes@.len(),
                forall|j: int| 0 <= j < i ==> kind_in(#[trigger] self.scopes@[j].identifiers@, identifier@) != Some(kind),
            decreases self.scopes@.len() - i,
        {
            if self.scopes[i].lookup(identifier) == Some(kind) {
                return true;
            }
            i += 1;
        }
        false
    }

    /// Whether some scope declares `identifier` at all.
    pub fn is_declared(&self, identifier: &str) -> (r: bool)
        ensures
            r == declared(self.scope_stack(), identifier@),
    {
        let mut i: usize = 0;
        while i < self.scopes.len()
            invariant
                i <= self.scopes@.len(),
                forall|j: int| 0 <= j < i ==> kind_in(#[trigger] self.scopes@[j].identifiers@, identifier@) is None,
            decreases self.scopes@.len() - i,
        {
            if self.scopes[i].lookup(identifier).is_some() {
                return true;
            }
            i += 1;
        }
        false
    }

    /// Hands out the next token as an identifier that is not a type name; an error otherwise.
    pub fn expect_non_typename_identifier(&mut self) -> (r: PResult<Spanned<String>>)
        ensures
            final(self).scope_stack() == old(self).scope_stack(),
            final(self).reports() == old(self).reports(),
            old(self).pending().len() == 0 ==> final(self).pending() == old(self).pending(),
            old(self).pending().len() > 0 ==> final(self).pending() == old(self).pending().drop_first(),
            ({
                let t = first_tok(old(self).pending());
                ok_first(old(self).pending()) && t.value is Identifier && !declared_as(
                    old(self).scope_stack(),
                    t.value->Identifier_0@,
                    IdentifierKind::Typename,
                )
            }) ==> (r matches Ok(s) && s.value@ == first_tok(old(self).pending()).value->Identifier_0@
                && s.location == first_tok(old(self).pending()).location),
            !({
                let t = first_tok(old(self).pending());
                ok_first(old(self).pending()) && t.value is Identifier && !declared_as(
                    old(self).scope_stack(),
                    t.value->Identifier_0@,
                    IdentifierKind::Typename,
                )
            }) ==> r is Err,
    {
        let stoken = self.next_token()?;
        match stoken.value {
            Token::Identifier(identifier) => {
                if self.is_typedef(identifier.as_str()) {
                    let mut message = String::new();
                    push_str(&mut message, "expected identifier, found typename ");
                    push_str(&mut message, identifier.as_str());
                    Err(simple_error(&stoken.location, message.as_str()))
                } else {
                    Ok(Spanned::new(stoken.location, identifier))
                }
            },
            _ => Err(simple_error(&stoken.location, "expected identifier, found another token")),
        }
    }

    /// Whether a comma may continue the list `v`: `v` is not empty and a comma comes next.
    pub fn consider_comma<T>(&mut self, v: &Vec<T>) -> (r: PResult<bool>)
        ensures
            final(self).scope_stack() == old(self).scope_stack(),
            final(self).reports() == old(self).reports(),
            final(self).pending() == old(self).pending(),
            r == Ok::<bool, Report>(v@.len() >= 1 && first_is(old(self).pending(), Punctuator::Comma)),
    {
        if v.len() >= 1 {
            let is_comma = match self.peek_token() {
                Ok(t) => match &t.value {
                    Token::Punctuator(Punctuator::Comma) => true,
                    _ => false,
                },
                Err(_) => false,
            };
            Ok(is_comma)
        } else {
            Ok(false)
        }
    }

    /// Opens a new innermost scope.
    pub fn push_scope(&mut self, kind: ScopeKind)
        ensures
            final(self).pending() == old(self).pending(),
            final(self).reports() == old(self).reports(),
            final(self).scope_stack().len() == old(self).scope_stack().len() + 1,
            final(self).scope_stack().drop_last() == old(self).scope_stack(),
            final(self).scope_stack().last().identifiers@.len() == 0,
            final(self).scope_stack().last().kind == kind,
    {
        self.scopes.push(Scope { identifiers: Vec::new(), kind });
        assert(self.scopes@.drop_last() =~= old(self).scopes@);
    }

    /// Closes the innermost scope.
    pub fn pop_scope(&mut self)
        requires
            old(self).scope_stack().len() > 0,
        ensures
            final(self).pending() == old(self).pending(),
            final(self).reports() == old(self).reports(),
            final(self).scope_stack() == old(self).scope_stack().drop_last(),
    {
        let _ = self.scopes.pop();
    }

    /// Whether a semicolon comes next.
    pub fn next_is_semicolon(&mut self) -> (r: bool)
        ensures
            final(self).scope_stack() == old(self).scope_stack(),
            final(self).reports() == old(self).reports(),
            final(self).pending() == old(self).pending(),
            r == first_is(old(self).pending(), Punctuator::Semicolon),
    {
        match self.peek_token() {
            Ok(t) => match &t.value {
                Token::Punctuator(Punctuator::Semicolon) => true,
                _ => false,
            },
            Err(_) => false,
        }
    }

    /// Whether no token comes next (the end, or an error item).
    pub fn next_is_eof(&mut self) -> (r: bool)
        ensures
            final(self).scope_stack() == old(self).scope_stack(),
            final(self).reports() == old(self).reports(),
            final(self).pending() == old(self).pending(),
            r == !ok_first(old(self).pending()),
    {
        self.peek_token().is_err()
    }

    /// Whether the next token can start a type name.
    pub fn can_start_typename(&mut self) -> (r: bool)
        ensures
            final(self).scope_stack() == old(self).scope_stack(),
            final(self).reports() == old(self).reports(),
            final(self).pending() == old(self).pending(),
            r == typename_first(old(self).pending(), old(self).scope_stack()),
    {
        let (is_keyword, is_type_kw, name) = match self.peek_token() {
            Ok(t) => match &t.value {
                Token::Keyword(k) => (true, type_keyword(*k), None),
                Token::Identifier(i) => (false, false, Some(i.clone())),
                _ => (false, false, None),
            },
            Err(_) => (false, false, None),
        };
        if is_keyword {
            is_type_kw
        } else {
            match name {
                Some(i) => self.is_typedef(i.as_str()),
                None => false,
            }
        }
    }
}

/// Whether `k` is a type specifier or qualifier.
pub fn type_keyword(k: Keyword) -> (r: bool)
    ensures
        r == is_type_keyword(k),
{
    match k {
        Keyword::Void | Keyword::Char | Keyword::Short | Keyword::Int | Keyword::Long | Keyword::Float
        | Keyword::Double | Keyword::Signed | Keyword::Unsigned | Keyword::Bool | Keyword::Complex
        | Keyword::Struct | Keyword::Union | Keyword::Enum | Keyword::Const | Keyword::Restrict
        | Keyword::Volatile => true,
        _ => false,
    }
}

} // verus!

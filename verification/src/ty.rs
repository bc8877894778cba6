//! Which part of a type the next token can start.
use crate::ast::{Keyword, Punctuator};
use crate::errors::PResult;
use crate::parser::{declared_as, first_is, first_tok, ok_first, IdentifierKind, Parser, Scope, Token};
use crate::spanned::Spanned;
use vstd::prelude::*;

verus! {

/// Whether `k` is a type qualifier (`const`, `restrict`, `volatile`).
pub open spec fn is_qualifier_keyword(k: Keyword) -> bool {
    k == Keyword::Const || k == Keyword::Restrict || k == Keyword::Volatile
}

/// Whether the pending tokens start with a type qualifier.
pub open spec fn qualifier_first(ts: Seq<PResult<Spanned<Token>>>) -> bool {
    ok_first(ts) && match first_tok(ts).value {
        Token::Keyword(k) => is_qualifier_keyword(k),
        _ => false,
    }
}

/// Whether `k` is a keyword that specifies a type.
pub open spec fn is_specifier_keyword(k: Keyword) -> bool {
    match k {
        Keyword::Void | Keyword::Char | Keyword::Short | Keyword::Int | Keyword::Long | Keyword::Float
        | Keyword::Double | Keyword::Signed | Keyword::Unsigned | Keyword::Bool | Keyword::Complex
        | Keyword::Struct | Keyword::Union | Keyword::Enum => true,
        _ => false,
    }
}

/// Whether the pending tokens start a type specifier: such a keyword, or a typedef name.
pub open spec fn specifier_first(ts: Seq<PResult<Spanned<Token>>>, sc: Seq<Scope>) -> bool {
    ok_first(ts) && match first_tok(ts).value {
        Token::Keyword(k) => is_specifier_keyword(k),
        Token::Identifier(i) => declared_as(sc, i@, IdentifierKind::Typename),
        _ => false,
    }
}

impl Parser {
    /// Whether the next token is `*`; an error where no token can be read.
    pub fn can_start_pointer(&mut self) -> (r: PResult<bool>)
        ensures
            final(self).scope_stack() == old(self).scope_stack(),
            final(self).reports() == old(self).reports(),
            final(self).pending() == old(self).pending(),
            ok_first(old(self).pending()) ==> r == Ok::<bool, crate::errors::Report>(
                first_is(old(self).pending(), Punctuator::Asterisk),
            ),
            !ok_first(old(self).pending()) ==> r is Err,
    {
        let t = self.peek_token()?;
        Ok(
            match &t.value {
                Token::Punctuator(Punctuator::Asterisk) => true,
                _ => false,
            },
        )
    }

    /// Whether the next token is a type qualifier.
    pub fn can_parse_type_qualifier(&mut self) -> (r: bool)
        ensures
            final(self).scope_stack() == old(self).scope_stack(),
            final(self).reports() == old(self).reports(),
            final(self).pending() == old(self).pending(),
            r == qualifier_first(old(self).pending()),
    {
        match self.peek_token() {
            Ok(t) => match &t.value {
                Token::Keyword(Keyword::Const) | Token::Keyword(Keyword::Restrict) | Token::Keyword(Keyword::Volatile) => true,
                _ => false,
            },
            Err(_) => false,
        }
    }

    /// Whether the next token starts a type specifier.
    pub fn can_parse_type_specifier(&mut self) -> (r: bool)
        ensures
            final(self).scope_stack() == old(self).scope_stack(),
            final(self).reports() == old(self).reports(),
            final(self).pending() == old(self).pending(),
            r == specifier_first(old(self).pending(), old(self).scope_stack()),
    {
        let (decided, answer, name) = match self.peek_token() {
            Ok(t) => match &t.value {
                Token::Keyword(k) => (
                    true,
                    match k {
                        Keyword::Void | Keyword::Char | Keyword::Short | Keyword::Int | Keyword::Long
                        | Keyword::Float | Keyword::Double | Keyword::Signed | Keyword::Unsigned | Keyword::Bool
                        | Keyword::Complex | Keyword::Struct | Keyword::Union | Keyword::Enum => true,
                        _ => false,
                    },
                    None,
                ),
                Token::Identifier(i) => (false, false, Some(i.clone())),
                _ => (true, false, None),
            },
            Err(_) => (true, false, None),
        };
        if decided {
            answer
        } else {
            match name {
                Some(i) => self.is_typedef(i.as_str()),
                None => false,
            }
        }
    }
}

} // verus!

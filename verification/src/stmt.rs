//! Which statement the next token can start.
use crate::ast::{keyword_spelling, law_keyword_spelling, Keyword, Punctuator};
use crate::expr::primary_first;
use crate::parser::{first_is, first_tok, ok_first, Parser, Scope, Token};
use crate::errors::PResult;
use crate::spanned::Spanned;
use vstd::prelude::*;

verus! {

/// Whether the first pending token is the keyword `k`.
pub open spec fn first_keyword(ts: Seq<PResult<Spanned<Token>>>, k: Keyword) -> bool {
    ok_first(ts) && first_tok(ts).value == Token::Keyword(k)
}

/// Whether the pending tokens start a labeled statement: an identifier followed by `:`, or
/// `case` or `default`.
pub open spec fn labeled_first(ts: Seq<PResult<Spanned<Token>>>) -> bool {
    (ok_first(ts) && first_tok(ts).value is Identifier && ts.len() > 1 && ts[1] is Ok && ts[1]->Ok_0.value
        == Token::Punctuator(Punctuator::Colon)) || first_keyword(ts, Keyword::Case) || first_keyword(
        ts,
        Keyword::Default,
    )
}

/// Whether the pending tokens start a selection statement (`if`, `switch`).
pub open spec fn selection_first(ts: Seq<PResult<Spanned<Token>>>) -> bool {
    first_keyword(ts, Keyword::If) || first_keyword(ts, Keyword::Switch)
}

/// Whether the pending tokens start an iteration statement (`while`, `do`, `for`).
pub open spec fn iteration_first(ts: Seq<PResult<Spanned<Token>>>) -> bool {
    first_keyword(ts, Keyword::While) || first_keyword(ts, Keyword::Do) || first_keyword(ts, Keyword::For)
}

/// Whether the pending tokens start a jump statement (`goto`, `continue`, `break`, `return`).
pub open spec fn jump_first(ts: Seq<PResult<Spanned<Token>>>) -> bool {
    first_keyword(ts, Keyword::Goto) || first_keyword(ts, Keyword::Continue) || first_keyword(ts, Keyword::Break)
        || first_keyword(ts, Keyword::Return)
}

/// Whether the pending tokens start a statement of any kind.
pub open spec fn statement_first(ts: Seq<PResult<Spanned<Token>>>, sc: Seq<Scope>) -> bool {
    labeled_first(ts) || first_is(ts, Punctuator::LeftBrace) || selection_first(ts) || iteration_first(ts)
        || jump_first(ts) || primary_first(ts, sc)
}

/// Whether the keyword `k` is spelled as one of `words`.
pub open spec fn spelled_as_one_of(k: Keyword, words: Seq<Seq<char>>) -> bool {
    exists|i: int| 0 <= i < words.len() && keyword_spelling(k) == #[trigger] words[i]
}

/// The keyword `k` is the keyword spelled `w`, where `w` is one of its spellings.
proof fn lemma_spelled(k: Keyword, w: Seq<char>, named: Keyword)
    requires
        keyword_spelling(named) == w,
    ensures
        keyword_spelling(k) == w <==> k == named,
{
    law_keyword_spelling(k, w);
    law_keyword_spelling(named, w);
}

/// Which statement a keyword starts, by how the keyword is spelled: `goto`, `continue`,
/// `break` and `return` a jump statement; `if` and `switch` a selection statement; `while`,
/// `do` and `for` an iteration statement; `case` and `default` a labeled statement; each of
/// these a statement; any other keyword none of the four kinds.
pub proof fn law_statement_keywords(ts: Seq<PResult<Spanned<Token>>>, k: Keyword, sc: Seq<Scope>)
    requires
        ts.len() > 0,
        ts[0] matches Ok(t) && t.value == Token::Keyword(k),
    ensures
        jump_first(ts) <==> spelled_as_one_of(k, seq!["goto"@, "continue"@, "break"@, "return"@]),
        selection_first(ts) <==> spelled_as_one_of(k, seq!["if"@, "switch"@]),
        iteration_first(ts) <==> spelled_as_one_of(k, seq!["while"@, "do"@, "for"@]),
        labeled_first(ts) <==> spelled_as_one_of(k, seq!["case"@, "default"@]),
        (jump_first(ts) || selection_first(ts) || iteration_first(ts) || labeled_first(ts)) ==> statement_first(ts, sc),
{
    let jw = seq!["goto"@, "continue"@, "break"@, "return"@];
    let sw = seq!["if"@, "switch"@];
    let iw = seq!["while"@, "do"@, "for"@];
    let lw = seq!["case"@, "default"@];
    lemma_spelled(k, "goto"@, Keyword::Goto);
    lemma_spelled(k, "continue"@, Keyword::Continue);
    lemma_spelled(k, "break"@, Keyword::Break);
    lemma_spelled(k, "return"@, Keyword::Return);
    lemma_spelled(k, "if"@, Keyword::If);
    lemma_spelled(k, "switch"@, Keyword::Switch);
    lemma_spelled(k, "while"@, Keyword::While);
    lemma_spelled(k, "do"@, Keyword::Do);
    lemma_spelled(k, "for"@, Keyword::For);
    lemma_spelled(k, "case"@, Keyword::Case);
    lemma_spelled(k, "default"@, Keyword::Default);
    assert(spelled_as_one_of(k, jw) <==> (keyword_spelling(k) == jw[0] || keyword_spelling(k) == jw[1] || keyword_spelling(k)
        == jw[2] || keyword_spelling(k) == jw[3]));
    assert(spelled_as_one_of(k, sw) <==> (keyword_spelling(k) == sw[0] || keyword_spelling(k) == sw[1]));
    assert(spelled_as_one_of(k, iw) <==> (keyword_spelling(k) == iw[0] || keyword_spelling(k) == iw[1] || keyword_spelling(k)
        == iw[2]));
    assert(spelled_as_one_of(k, lw) <==> (keyword_spelling(k) == lw[0] || keyword_spelling(k) == lw[1]));
}

impl Parser {
    fn next_is_keyword(&mut self, k: Keyword) -> (r: bool)
        ensures
            final(self).scope_stack() == old(self).scope_stack(),
            final(self).reports() == old(self).reports(),
            final(self).pending() == old(self).pending(),
            r == first_keyword(old(self).pending(), k),
    {
        match self.peek_token() {
            Ok(t) => match &t.value {
                Token::Keyword(x) => *x == k,
                _ => false,
            },
            Err(_) => false,
        }
    }

    /// Whether the next tokens start a labeled statement.
    pub fn can_start_labeled_stmt(&mut self) -> (r: bool)
        ensures
            final(self).scope_stack() == old(self).scope_stack(),
            final(self).reports() == old(self).reports(),
            final(self).pending() == old(self).pending(),
            r == labeled_first(old(self).pending()),
    {
        let first_is_identifier = match self.peek_token() {
            Ok(t) => match &t.value {
                Token::Identifier(_) => true,
                _ => false,
            },
            Err(_) => false,
        };
        let a = first_is_identifier && match self.peek_token_nth(1) {
            Ok(t) => match &t.value {
                Token::Punctuator(Punctuator::Colon) => true,
                _ => false,
            },
            Err(_) => false,
        };
        a || self.next_is_keyword(Keyword::Case) || self.next_is_keyword(Keyword::Default)
    }

    /// Whether the next token opens a compound statement.
    pub fn can_start_compound_statement(&mut self) -> (r: bool)
        ensures
            final(self).scope_stack() == old(self).scope_stack(),
            final(self).reports() == old(self).reports(),
            final(self).pending() == old(self).pending(),
            r == first_is(old(self).pending(), Punctuator::LeftBrace),
    {
        match self.peek_token() {
            Ok(t) => match &t.value {
                Token::Punctuator(Punctuator::LeftBrace) => true,
                _ => false,
            },
            Err(_) => false,
        }
    }

    /// Whether the next token starts a selection statement.
    pub fn can_start_selection_statement(&mut self) -> (r: bool)
        ensures
            final(self).scope_stack() == old(self).scope_stack(),
            final(self).reports() == old(self).reports(),
            final(self).pending() == old(self).pending(),
            r == selection_first(old(self).pending()),
    {
        self.next_is_keyword(Keyword::If) || self.next_is_keyword(Keyword::Switch)
    }

    /// Whether the next token starts an iteration statement.
    pub fn can_start_iteration_statement(&mut self) -> (r: bool)
        ensures
            final(self).scope_stack() == old(self).scope_stack(),
            final(self).reports() == old(self).reports(),
            final(self).pending() == old(self).pending(),
            r == iteration_first(old(self).pending()),
    {
        self.next_is_keyword(Keyword::While) || self.next_is_keyword(Keyword::Do) || self.next_is_keyword(Keyword::For)
    }

    /// Whether the next token starts a jump statement.
    pub fn can_start_jump_statement(&mut self) -> (r: bool)
        ensures
            final(self).scope_stack() == old(self).scope_stack(),
            final(self).reports() == old(self).reports(),
            final(self).pending() == old(self).pending(),
            r == jump_first(old(self).pending()),
    {
        self.next_is_keyword(Keyword::Goto) || self.next_is_keyword(Keyword::Continue) || self.next_is_keyword(
            Keyword::Break,
        ) || self.next_is_keyword(Keyword::Return)
    }

    /// Whether the next tokens start a statement.
    pub fn can_start_statement(&mut self) -> (r: bool)
        ensures
            final(self).scope_stack() == old(self).scope_stack(),
            final(self).reports() == old(self).reports(),
            final(self).pending() == old(self).pending(),
            r == statement_first(old(self).pending(), old(self).scope_stack()),
    {
        self.can_start_labeled_stmt() || self.can_start_compound_statement() || self.can_start_selection_statement()
            || self.can_start_iteration_statement() || self.can_start_jump_statement()
            || self.can_start_primary_expression()
    }
}

} // verus!

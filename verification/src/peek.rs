//! Lookahead streams: `peekmore::PeekMoreIterator` over vectors of characters,
//! spanned characters and parser tokens, with what each operation does to the
//! items still pending.
use crate::errors::PResult;
use crate::parser::Token;
use crate::spanned::Spanned;
use peekmore::{PeekMore, PeekMoreIterator};
use std::vec::IntoIter;
use vstd::prelude::*;

verus! {

#[verifier::external_type_specification]
#[verifier::external_body]
#[verifier::reject_recursive_types(I)]
pub struct ExPeekMoreIterator<I: Iterator>(PeekMoreIterator<I>);

/// The characters that a character stream has not handed out yet.
pub uninterp spec fn pending_chars(it: PeekMoreIterator<IntoIter<char>>) -> Seq<char>;

/// The spanned characters that a stream has not handed out yet.
pub uninterp spec fn pending_spanned_chars(it: PeekMoreIterator<IntoIter<Spanned<char>>>) -> Seq<Spanned<char>>;

/// The parser tokens that a stream has not handed out yet.
pub uninterp spec fn pending_tokens(it: PeekMoreIterator<IntoIter<PResult<Spanned<Token>>>>) -> Seq<PResult<Spanned<Token>>>;

/// `PeekMore::peekmore` on `v.into_iter()`: a stream whose pending items are those of `v`, in order.
#[verifier::external_body]
pub(crate) fn char_stream(v: Vec<char>) -> (r: PeekMoreIterator<IntoIter<char>>)
    ensures
        pending_chars(r) == v@,
{
    v.into_iter().peekmore()
}

/// `Iterator::next` of `PeekMoreIterator`: hands out the first pending item, if any, and drops it.
#[verifier::external_body]
pub(crate) fn next_char(it: &mut PeekMoreIterator<IntoIter<char>>) -> (r: Option<char>)
    ensures
        pending_chars(*old(it)).len() == 0 ==> r is None && pending_chars(*final(it)) == pending_chars(*old(it)),
        pending_chars(*old(it)).len() > 0 ==> r == Some(pending_chars(*old(it))[0])
            && pending_chars(*final(it)) == pending_chars(*old(it)).drop_first(),
{
    it.next()
}

/// `PeekMoreIterator::peek_nth`: the `n`-th pending item, if there is one; nothing is consumed.
/// (It buffers up to `n + 1` items from the inner iterator; the bound on `n` keeps that small.)
#[verifier::external_body]
pub(crate) fn peek_char(it: &mut PeekMoreIterator<IntoIter<char>>, n: usize) -> (r: Option<&char>)
    requires
        n < 4,
    ensures
        pending_chars(*final(it)) == pending_chars(*old(it)),
        n < pending_chars(*old(it)).len() ==> r == Some(&pending_chars(*old(it))[n as int]),
        n >= pending_chars(*old(it)).len() ==> r is None,
{
    it.peek_nth(n)
}

/// `PeekMore::peekmore` on `v.into_iter()`: a stream whose pending items are those of `v`, in order.
#[verifier::external_body]
pub(crate) fn spanned_char_stream(v: Vec<Spanned<char>>) -> (r: PeekMoreIterator<IntoIter<Spanned<char>>>)
    ensures
        pending_spanned_chars(r) == v@,
{
    v.into_iter().peekmore()
}

/// `Iterator::next` of `PeekMoreIterator`: hands out the first pending item, if any, and drops it.
#[verifier::external_body]
pub(crate) fn next_spanned_char(it: &mut PeekMoreIterator<IntoIter<Spanned<char>>>) -> (r: Option<Spanned<char>>)
    ensures
        pending_spanned_chars(*old(it)).len() == 0 ==> r is None && pending_spanned_chars(*final(it)) == pending_spanned_chars(*old(it)),
        pending_spanned_chars(*old(it)).len() > 0 ==> r == Some(pending_spanned_chars(*old(it))[0])
            && pending_spanned_chars(*final(it)) == pending_spanned_chars(*old(it)).drop_first(),
{
    it.next()
}

/// `PeekMoreIterator::peek_nth`: the `n`-th pending item, if there is one; nothing is consumed.
#[verifier::external_body]
pub(crate) fn peek_spanned_char(it: &mut PeekMoreIterator<IntoIter<Spanned<char>>>, n: usize) -> (r: Option<&Spanned<char>>)
    requires
        n < 4,
    ensures
        pending_spanned_chars(*final(it)) == pending_spanned_chars(*old(it)),
        n < pending_spanned_chars(*old(it)).len() ==> r == Some(&pending_spanned_chars(*old(it))[n as int]),
        n >= pending_spanned_chars(*old(it)).len() ==> r is None,
{
    it.peek_nth(n)
}

/// `PeekMore::peekmore` on `v.into_iter()`: a stream whose pending items are those of `v`, in order.
#[verifier::external_body]
pub(crate) fn token_stream(v: Vec<PResult<Spanned<Token>>>) -> (r: PeekMoreIterator<IntoIter<PResult<Spanned<Token>>>>)
    ensures
        pending_tokens(r) == v@,
{
    v.into_iter().peekmore()
}

/// `Iterator::next` of `PeekMoreIterator`: hands out the first pending item, if any, and drops it.
#[verifier::external_body]
pub(crate) fn next_token_item(it: &mut PeekMoreIterator<IntoIter<PResult<Spanned<Token>>>>) -> (r: Option<PResult<Spanned<Token>>>)
    ensures
        pending_tokens(*old(it)).len() == 0 ==> r is None && pending_tokens(*final(it)) == pending_tokens(*old(it)),
        pending_tokens(*old(it)).len() > 0 ==> r == Some(pending_tokens(*old(it))[0])
            && pending_tokens(*final(it)) == pending_tokens(*old(it)).drop_first(),
{
    it.next()
}

/// `PeekMoreIterator::peek_nth`: the `n`-th pending item, if there is one; nothing is consumed.
#[verifier::external_body]
pub(crate) fn peek_token_item(it: &mut PeekMoreIterator<IntoIter<PResult<Spanned<Token>>>>, n: usize) -> (r: Option<&PResult<Spanned<Token>>>)
    requires
        n < 4,
    ensures
        pending_tokens(*final(it)) == pending_tokens(*old(it)),
        n < pending_tokens(*old(it)).len() ==> r == Some(&pending_tokens(*old(it))[n as int]),
        n >= pending_tokens(*old(it)).len() ==> r is None,
{
    it.peek_nth(n)
}

} // verus!

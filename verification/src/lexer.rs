//! Tokenization of prelexed characters into preprocessing tokens.
use crate::ast::{lemma_tokens_view, lemma_tokens_view_push, punct_of_char, punct_spelling, spanned_view, tokens_view, Punctuator, PreprocessingToken, TokenView, Whitespace};
use crate::errors::{simple_error, PResult};
use crate::peek::{next_spanned_char, peek_spanned_char, pending_spanned_chars, spanned_char_stream};
use crate::prelexer::prelex;
use crate::spanned::{Location, Spanned};
use crate::strings::push_char;
use peekmore::PeekMoreIterator;
use std::vec::IntoIter;
use vstd::prelude::*;

verus! {

/// `_`, `A`-`Z` or `a`-`z`: a character that may start an identifier.
pub open spec fn is_nondigit(c: char) -> bool {
    c == '_' || ('A' <= c && c <= 'Z') || ('a' <= c && c <= 'z')
}

pub open spec fn is_digit(c: char) -> bool {
    '0' <= c && c <= '9'
}

/// A character that may continue an identifier.
pub open spec fn is_identifier_char(c: char) -> bool {
    is_nondigit(c) || is_digit(c)
}

pub fn nondigit(c: char) -> (r: bool)
    ensures
        r == is_nondigit(c),
{
    c == '_' || ('A' <= c && c <= 'Z') || ('a' <= c && c <= 'z')
}

pub fn digit(c: char) -> (r: bool)
    ensures
        r == is_digit(c),
{
    '0' <= c && c <= '9'
}

pub fn identifier(c: char) -> (r: bool)
    ensures
        r == is_identifier_char(c),
{
    nondigit(c) || digit(c)
}

/// `(`, `{` or `[`.
pub fn opening_delimiter(c: char) -> (r: bool)
    ensures
        r == (c == '(' || c == '{' || c == '['),
{
    c == '(' || c == '{' || c == '['
}

/// The characters of a sequence of spanned characters.
pub open spec fn text(s: Seq<Spanned<char>>) -> Seq<char> {
    s.map_values(|c: Spanned<char>| c.value)
}

/// How many leading characters of `cs` may continue an identifier.
pub open spec fn identifier_run(cs: Seq<Spanned<char>>) -> nat
    decreases cs.len(),
{
    if cs.len() > 0 && is_identifier_char(cs[0].value) {
        1 + identifier_run(cs.drop_first())
    } else {
        0
    }
}

/// How many leading characters of `cs` continue a preprocessing number; `exponent` tells
/// whether an exponent letter was just read, after which a sign belongs to the number.
pub open spec fn number_run(cs: Seq<Spanned<char>>, exponent: bool) -> nat
    decreases cs.len(),
{
    if cs.len() == 0 {
        0
    } else {
        let c = cs[0].value;
        if c == 'e' || c == 'E' || c == 'p' || c == 'P' {
            1 + number_run(cs.drop_first(), true)
        } else if (c == '+' || c == '-') && exponent {
            1 + number_run(cs.drop_first(), false)
        } else if c == '.' || is_digit(c) || is_nondigit(c) {
            1 + number_run(cs.drop_first(), exponent)
        } else {
            0
        }
    }
}

/// Reading the body of a literal closed by `quote`: its contents, how many characters it
/// takes (closing quote included), and `false` when a backslash is the last character left.
/// A backslash before `quote` or before another backslash stands for that character.
pub open spec fn quoted_scan(cs: Seq<Spanned<char>>, quote: char) -> (Seq<char>, nat, bool)
    decreases cs.len(),
{
    if cs.len() == 0 {
        (seq![], 0, true)
    } else if cs[0].value == quote {
        (seq![], 1, true)
    } else if cs[0].value == '\\' && cs.len() == 1 {
        (seq![], 0, false)
    } else if cs[0].value == '\\' && (cs[1].value == quote || cs[1].value == '\\') {
        let r = quoted_scan(cs.skip(2), quote);
        (seq![cs[1].value] + r.0, r.1 + 2, r.2)
    } else {
        let r = quoted_scan(cs.drop_first(), quote);
        (seq![cs[0].value] + r.0, r.1 + 1, r.2)
    }
}

/// The end of a token that starts with `first` and then takes `n` characters of `rest`.
pub open spec fn end_after(first: Spanned<char>, rest: Seq<Spanned<char>>, n: nat) -> usize {
    if n == 0 {
        first.location.range.end
    } else {
        rest[n - 1].location.range.end
    }
}

pub open spec fn span_of(start: usize, end: usize, file_id: usize) -> Location {
    Location { range: core::ops::Range { start, end }, file_id }
}

/// The punctuator of two characters that stands before the one-character ones, in the
/// order in which they are tried.
pub open spec fn two_char_punct(a: char, b: char) -> Option<Punctuator> {
    if a == '#' && b == '#' {
        Some(Punctuator::HashHash)
    } else if a == '+' && b == '+' {
        Some(Punctuator::PlusPlus)
    } else if a == '-' && b == '-' {
        Some(Punctuator::MinusMinus)
    } else if a == '&' && b == '&' {
        Some(Punctuator::AndAnd)
    } else if a == '=' && b == '=' {
        Some(Punctuator::EqualEqual)
    } else if a == '-' && b == '>' {
        Some(Punctuator::Arrow)
    } else if a == '<' && b == '<' {
        Some(Punctuator::LeftLeft)
    } else if a == '<' && b == '=' {
        Some(Punctuator::LeftEqual)
    } else if a == '>' && b == '>' {
        Some(Punctuator::RightRight)
    } else if a == '>' && b == '=' {
        Some(Punctuator::RightEqual)
    } else if a == '!' && b == '=' {
        Some(Punctuator::BangEqual)
    } else if a == '|' && b == '|' {
        Some(Punctuator::PipePipe)
    } else if a == '+' && b == '=' {
        Some(Punctuator::PlusEqual)
    } else if a == '-' && b == '=' {
        Some(Punctuator::MinusEqual)
    } else if a == '*' && b == '=' {
        Some(Punctuator::AsteriskEqual)
    } else if a == '%' && b == '=' {
        Some(Punctuator::PercentEqual)
    } else if a == '/' && b == '=' {
        Some(Punctuator::SlashEqual)
    } else if a == '&' && b == '=' {
        Some(Punctuator::AndEqual)
    } else if a == '|' && b == '=' {
        Some(Punctuator::PipeEqual)
    } else if a == '^' && b == '=' {
        Some(Punctuator::CaretEqual)
    } else {
        None
    }
}

/// Whether `cs` starts a comment.
pub open spec fn starts_comment(cs: Seq<Spanned<char>>) -> bool {
    cs.len() >= 2 && cs[0].value == '/' && (cs[1].value == '/' || cs[1].value == '*')
}

/// Where the comment that `cs` starts ends, looking from index `i` on: the index of the
/// newline that ends a line comment, or of the `*` of the `*/` that ends a block comment;
/// `None` when the characters run out first.
pub open spec fn comment_end(cs: Seq<Spanned<char>>, i: int, block: bool) -> Option<int>
    decreases cs.len() - i,
{
    if i >= cs.len() {
        None
    } else if (block && i + 1 < cs.len() && cs[i].value == '*' && cs[i + 1].value == '/') || (!block
        && cs[i].value == '\n') {
        Some(i)
    } else {
        comment_end(cs, i + 1, block)
    }
}

/// Where a block comment ends lies within the characters.
pub proof fn lemma_comment_end_range(cs: Seq<Spanned<char>>, i: int, block: bool)
    ensures
        comment_end(cs, i, block) matches Some(k) ==> i <= k < cs.len() && (block ==> k + 1 < cs.len()),
    decreases cs.len() - i,
{
    if i < cs.len() {
        lemma_comment_end_range(cs, i + 1, block);
    }
}

/// Whether `cs` starts a control line.
pub open spec fn starts_control_line(cs: Seq<Spanned<char>>, at_start_of_line: bool) -> bool {
    cs.len() >= 1 && cs[0].value == '#' && at_start_of_line
}

/// A punctuator that the lexer reads from two characters is spelled by those two
/// characters: `Punctuator::to_string` writes back what was read.
pub proof fn law_two_char_spelling(a: char, b: char)
    ensures
        two_char_punct(a, b) matches Some(p) ==> punct_spelling(p) == seq![a, b],
{
    reveal_strlit("##");
    reveal_strlit("++");
    reveal_strlit("--");
    reveal_strlit("&&");
    reveal_strlit("==");
    reveal_strlit("->");
    reveal_strlit("<<");
    reveal_strlit("<=");
    reveal_strlit(">>");
    reveal_strlit(">=");
    reveal_strlit("!=");
    reveal_strlit("||");
    reveal_strlit("+=");
    reveal_strlit("-=");
    reveal_strlit("*=");
    reveal_strlit("%=");
    reveal_strlit("/=");
    reveal_strlit("&=");
    reveal_strlit("|=");
    reveal_strlit("^=");
    if let Some(p) = two_char_punct(a, b) {
        assert(punct_spelling(p) =~= seq![a, b]);
    }
}

/// The punctuator that the lexer reads from the front of `cs` is spelled by exactly the
/// characters it takes.
pub proof fn law_lexed_punctuator_spelling(cs: Seq<Spanned<char>>, file_id: usize)
    requires
        cs.len() > 0,
    ensures
        lex_simple(cs, file_id) matches Some((t, k)) ==> (t.value matches TokenView::Punctuator(p) ==> punct_spelling(p)
            == text(cs.take(k as int))),
{
    reveal_strlit("<<=");
    reveal_strlit(">>=");
    reveal_strlit("...");
    let v = cs[0].value;
    let rest = cs.drop_first();
    if let Some((t, k)) = lex_simple(cs, file_id) {
        if let TokenView::Punctuator(p) = t.value {
            if k == 3 {
                assert(text(cs.take(3)) =~= seq![v, rest[0].value, rest[1].value]);
                assert(punct_spelling(p) =~= text(cs.take(3)));
            } else if k == 2 {
                law_two_char_spelling(v, rest[0].value);
                assert(text(cs.take(2)) =~= seq![v, rest[0].value]);
            } else {
                crate::ast::law_punctuator_char_spelling(v);
                assert(text(cs.take(1)) =~= seq![v]);
            }
        }
    }
}

/// The token that a non-empty `cs` starts with, and how many characters it takes, for every
/// token but comments and control lines; `None` where the characters form no token.
pub open spec fn lex_simple(cs: Seq<Spanned<char>>, file_id: usize) -> Option<(Spanned<TokenView>, nat)> {
    let c = cs[0];
    let v = c.value;
    let rest = cs.drop_first();
    let has0 = rest.len() > 0;
    let has1 = rest.len() > 1;
    if is_nondigit(v) {
        let n = identifier_run(rest);
        Some((
            Spanned {
                value: TokenView::Identifier(seq![v] + text(rest.take(n as int))),
                location: span_of(c.location.range.start, end_after(c, rest, n), file_id),
            },
            n + 1,
        ))
    } else if v == '"' || v == '\'' {
        let (content, n, ok) = quoted_scan(rest, v);
        if ok {
            Some((
                Spanned {
                    value: if v == '"' {
                        TokenView::StringLiteral(content)
                    } else {
                        TokenView::CharLiteral(content)
                    },
                    location: span_of(c.location.range.start, end_after(c, rest, n), file_id),
                },
                n + 1,
            ))
        } else {
            None
        }
    } else if is_digit(v) || (v == '.' && has0 && is_digit(rest[0].value)) {
        let n = number_run(rest, false);
        Some((
            Spanned {
                value: TokenView::PPNumber(seq![v] + text(rest.take(n as int))),
                location: span_of(c.location.range.start, end_after(c, rest, n), file_id),
            },
            n + 1,
        ))
    } else if has1 && ((v == '<' && rest[0].value == '<' && rest[1].value == '=') || (v == '>'
        && rest[0].value == '>' && rest[1].value == '=') || (v == '.' && rest[0].value == '.'
        && rest[1].value == '.')) {
        Some((
            Spanned {
                value: TokenView::Punctuator(
                    if v == '<' {
                        Punctuator::LeftLeftEqual
                    } else if v == '>' {
                        Punctuator::RightRightEqual
                    } else {
                        Punctuator::DotDotDot
                    },
                ),
                location: span_of(c.location.range.start, rest[1].location.range.end, file_id),
            },
            3,
        ))
    } else if has0 && two_char_punct(v, rest[0].value) is Some {
        Some((
            Spanned {
                value: TokenView::Punctuator(two_char_punct(v, rest[0].value)->0),
                location: c.location,
            },
            2,
        ))
    } else if punct_of_char(v) is Some {
        Some((Spanned { value: TokenView::Punctuator(punct_of_char(v)->0), location: c.location }, 1))
    } else if v == ' ' || v == '\u{c}' {
        Some((Spanned { value: TokenView::Whitespace(Whitespace::Space), location: c.location }, 1))
    } else if v == '\t' {
        Some((Spanned { value: TokenView::Whitespace(Whitespace::Tab), location: c.location }, 1))
    } else if v == '\n' {
        Some((Spanned { value: TokenView::Whitespace(Whitespace::Newline), location: c.location }, 1))
    } else {
        None
    }
}

/// The punctuator of two characters that stands before the one-character ones.
pub fn two_char_punctuator(a: char, b: char) -> (r: Option<Punctuator>)
    ensures
        r == two_char_punct(a, b),
{
    if a == '#' && b == '#' {
        Some(Punctuator::HashHash)
    }     else if a == '+' && b == '+' {
        Some(Punctuator::PlusPlus)
    }     else if a == '-' && b == '-' {
        Some(Punctuator::MinusMinus)
    }     else if a == '&' && b == '&' {
        Some(Punctuator::AndAnd)
    }     else if a == '=' && b == '=' {
        Some(Punctuator::EqualEqual)
    }     else if a == '-' && b == '>' {
        Some(Punctuator::Arrow)
    }     else if a == '<' && b == '<' {
        Some(Punctuator::LeftLeft)
    }     else if a == '<' && b == '=' {
        Some(Punctuator::LeftEqual)
    }     else if a == '>' && b == '>' {
        Some(Punctuator::RightRight)
    }     else if a == '>' && b == '=' {
        Some(Punctuator::RightEqual)
    }     else if a == '!' && b == '=' {
        Some(Punctuator::BangEqual)
    }     else if a == '|' && b == '|' {
        Some(Punctuator::PipePipe)
    }     else if a == '+' && b == '=' {
        Some(Punctuator::PlusEqual)
    }     else if a == '-' && b == '=' {
        Some(Punctuator::MinusEqual)
    }     else if a == '*' && b == '=' {
        Some(Punctuator::AsteriskEqual)
    }     else if a == '%' && b == '=' {
        Some(Punctuator::PercentEqual)
    }     else if a == '/' && b == '=' {
        Some(Punctuator::SlashEqual)
    }     else if a == '&' && b == '=' {
        Some(Punctuator::AndEqual)
    }     else if a == '|' && b == '=' {
        Some(Punctuator::PipeEqual)
    }     else if a == '^' && b == '=' {
        Some(Punctuator::CaretEqual)
    } else {
        None
    }
}

pub proof fn lemma_identifier_run_len(cs: Seq<Spanned<char>>)
    ensures
        identifier_run(cs) <= cs.len(),
    decreases cs.len(),
{
    if cs.len() > 0 {
        lemma_identifier_run_len(cs.drop_first());
    }
}

pub proof fn lemma_number_run_len(cs: Seq<Spanned<char>>, e: bool)
    ensures
        number_run(cs, e) <= cs.len(),
    decreases cs.len(),
{
    if cs.len() > 0 {
        lemma_number_run_len(cs.drop_first(), true);
        lemma_number_run_len(cs.drop_first(), false);
    }
}

pub proof fn lemma_quoted_scan_len(cs: Seq<Spanned<char>>, q: char)
    ensures
        quoted_scan(cs, q).1 <= cs.len(),
    decreases cs.len(),
{
    if cs.len() > 0 {
        lemma_quoted_scan_len(cs.drop_first(), q);
    }
    if cs.len() > 1 {
        lemma_quoted_scan_len(cs.skip(2), q);
    }
}

proof fn lemma_suffix_trans<T>(a: Seq<T>, b: Seq<T>, c: Seq<T>)
    requires
        is_suffix(a, b),
        is_suffix(b, c),
    ensures
        is_suffix(a, c),
{
    assert(c =~= a.skip(a.len() - c.len()));
}

/// `b` is what is left of `a` after some of its first elements were taken.
pub open spec fn is_suffix<T>(a: Seq<T>, b: Seq<T>) -> bool {
    b.len() <= a.len() && b == a.skip(a.len() - b.len())
}

/// Whether the line-start flag holds after a token that began with `c`.
pub open spec fn line_start_after(c: char, before: bool) -> bool {
    if c == ' ' || c == '\t' {
        before
    } else {
        c == '\n'
    }
}

pub proof fn lemma_lex_simple_len(cs: Seq<Spanned<char>>, file_id: usize)
    requires
        cs.len() > 0,
    ensures
        lex_simple(cs, file_id) matches Some((t, k)) ==> 1 <= k <= cs.len(),
{
    lemma_identifier_run_len(cs.drop_first());
    lemma_number_run_len(cs.drop_first(), false);
    lemma_quoted_scan_len(cs.drop_first(), cs[0].value);
}

/// The tokens of `cs` when it holds neither comments nor control lines and every token
/// can be formed; `None` otherwise.
pub open spec fn simple_tokens(cs: Seq<Spanned<char>>, at_start_of_line: bool, file_id: usize) -> Option<Seq<Spanned<TokenView>>>
    decreases cs.len(),
{
    if cs.len() == 0 {
        Some(seq![])
    } else if starts_comment(cs) || starts_control_line(cs, at_start_of_line) {
        None
    } else {
        match lex_simple(cs, file_id) {
            None => None,
            Some((t, k)) => {
                proof {
                    lemma_lex_simple_len(cs, file_id);
                }
                if k >= 1 && k <= cs.len() {
                    match simple_tokens(cs.skip(k as int), line_start_after(cs[0].value, at_start_of_line), file_id) {
                        Some(ts) => Some(seq![t] + ts),
                        None => None,
                    }
                } else {
                    None
                }
            },
        }
    }
}

/// The control-line token whose `#` is at `hash` and whose tokens are `ts`: it runs from the
/// `#` to the end of its last token.
pub open spec fn nested_control_line(hash: Location, ts: Seq<Spanned<TokenView>>) -> Spanned<TokenView> {
    Spanned {
        value: TokenView::ControlLine(ts),
        location: Location {
            range: hash.range.start..(if ts.len() == 0 {
                hash.range.end
            } else {
                ts.last().location.range.end
            }),
            file_id: hash.file_id,
        },
    }
}

/// A lexed control line stops at a newline or at the end of the characters.
pub proof fn lemma_control_line_stop(cs: Seq<Spanned<char>>, at_start_of_line: bool, keep: bool, file_id: usize)
    ensures
        control_line_tokens(cs, at_start_of_line, keep, file_id) matches Some((ts, n)) ==> n <= cs.len() && (n
            == cs.len() || cs[n as int].value == '\n'),
    decreases cs.len(),
{
    if cs.len() == 0 || cs[0].value == '\n' {
    } else if cs.len() >= 2 && cs[0].value == '/' && cs[1].value == '/' {
        lemma_control_line_stop(cs.skip(2), at_start_of_line, false, file_id);
    } else if starts_comment(cs) {
        if let Some(k) = comment_end(cs, 1, true) {
            lemma_comment_end_range(cs, 1, true);
            if 1 <= k && k + 2 <= cs.len() {
                lemma_control_line_stop(cs.skip(k + 2), at_start_of_line, keep, file_id);
            }
        }
    } else if starts_control_line(cs, at_start_of_line) {
        lemma_control_line_stop(cs.drop_first(), true, true, file_id);
    } else {
        if let Some((t, k)) = lex_simple(cs, file_id) {
            lemma_lex_simple_len(cs, file_id);
            if k >= 1 && k <= cs.len() {
                lemma_control_line_stop(
                    cs.skip(k as int),
                    line_start_after(cs[0].value, at_start_of_line),
                    keep,
                    file_id,
                );
            }
        }
    }
}

/// The tokens that the characters `cs` lex to, from a place where a line starts or not:
/// a comment is one newline token at the character that ends it (nothing, and the end of
/// the tokens, where it is not closed); a `#` where a line starts is one control-line
/// token holding the tokens of its line (see `control_line_tokens`); any other token as
/// `lex_simple` reads it. `None` where a token cannot be formed, or a control line cannot
/// be read.
pub open spec fn all_tokens(cs: Seq<Spanned<char>>, at_start_of_line: bool, file_id: usize) -> Option<
    Seq<Spanned<TokenView>>,
>
    decreases cs.len(),
{
    if cs.len() == 0 {
        Some(seq![])
    } else if starts_comment(cs) {
        let block = cs[1].value == '*';
        match comment_end(cs, 1, block) {
            Some(k) => {
                proof {
                    lemma_comment_end_range(cs, 1, block);
                }
                let n = if block { k + 2 } else { k + 1 };
                let nl = Spanned { value: TokenView::Whitespace(Whitespace::Newline), location: cs[k].location };
                match all_tokens(cs.skip(n), at_start_of_line, file_id) {
                    Some(ts) => Some(seq![nl] + ts),
                    None => None,
                }
            },
            None => Some(seq![]),
        }
    } else if starts_control_line(cs, at_start_of_line) {
        match control_line_tokens(cs.drop_first(), true, true, file_id) {
            Some((ts, n)) => {
                proof {
                    lemma_control_line_stop(cs.drop_first(), true, true, file_id);
                }
                match all_tokens(cs.skip(n + 1int), false, file_id) {
                    Some(rest) => Some(seq![nested_control_line(cs[0].location, ts)] + rest),
                    None => None,
                }
            },
            None => None,
        }
    } else {
        match lex_simple(cs, file_id) {
            None => None,
            Some((t, k)) => {
                proof {
                    lemma_lex_simple_len(cs, file_id);
                }
                if k >= 1 && k <= cs.len() {
                    match all_tokens(cs.skip(k as int), line_start_after(cs[0].value, at_start_of_line), file_id) {
                        Some(ts) => Some(seq![t] + ts),
                        None => None,
                    }
                } else {
                    None
                }
            },
        }
    }
}

/// Every token takes at least one character, so there are no more tokens than characters.
pub proof fn law_all_tokens_count(cs: Seq<Spanned<char>>, at_start_of_line: bool, file_id: usize)
    ensures
        all_tokens(cs, at_start_of_line, file_id) matches Some(ts) ==> ts.len() <= cs.len(),
    decreases cs.len(),
{
    if cs.len() > 0 {
        if starts_comment(cs) {
            let block = cs[1].value == '*';
            if let Some(k) = comment_end(cs, 1, block) {
                lemma_comment_end_range(cs, 1, block);
                let n = if block { k + 2 } else { k + 1 };
                law_all_tokens_count(cs.skip(n), at_start_of_line, file_id);
            }
        } else if starts_control_line(cs, at_start_of_line) {
            if let Some((ts, n)) = control_line_tokens(cs.drop_first(), true, true, file_id) {
                lemma_control_line_stop(cs.drop_first(), true, true, file_id);
                law_all_tokens_count(cs.skip(n + 1int), false, file_id);
            }
        } else {
            if let Some((t, k)) = lex_simple(cs, file_id) {
                lemma_lex_simple_len(cs, file_id);
                if k >= 1 && k <= cs.len() {
                    law_all_tokens_count(cs.skip(k as int), line_start_after(cs[0].value, at_start_of_line), file_id);
                }
            }
        }
    }
}

/// The tokens of a control line whose `#` has been taken, up to the newline that ends it
/// (which stays) or the end of the characters, with how many characters they take: a block
/// comment stands as one newline at its closing `*`; after `//` the rest of the line is
/// still read as tokens but none of them is kept (`keep` false); a `#` where a line may
/// start opens a nested control line, which takes the rest of the line. `None` where the
/// line holds an unclosed block comment or a token that cannot be formed.
pub open spec fn control_line_tokens(cs: Seq<Spanned<char>>, at_start_of_line: bool, keep: bool, file_id: usize) -> Option<
    (Seq<Spanned<TokenView>>, nat),
>
    decreases cs.len(),
{
    if cs.len() == 0 || cs[0].value == '\n' {
        Some((seq![], 0))
    } else if cs.len() >= 2 && cs[0].value == '/' && cs[1].value == '/' {
        match control_line_tokens(cs.skip(2), at_start_of_line, false, file_id) {
            Some((ts, n)) => Some((ts, n + 2)),
            None => None,
        }
    } else if starts_comment(cs) {
        match comment_end(cs, 1, true) {
            Some(k) => {
                proof {
                    lemma_comment_end_range(cs, 1, true);
                }
                if 1 <= k && k + 2 <= cs.len() {
                    let nl = Spanned { value: TokenView::Whitespace(Whitespace::Newline), location: cs[k].location };
                    match control_line_tokens(cs.skip(k + 2), at_start_of_line, keep, file_id) {
                        Some((ts, n)) => Some((if keep { seq![nl] + ts } else { ts }, n + (k + 2) as nat)),
                        None => None,
                    }
                } else {
                    None
                }
            },
            None => None,
        }
    } else if starts_control_line(cs, at_start_of_line) {
        match control_line_tokens(cs.drop_first(), true, true, file_id) {
            Some((ts, n)) => Some((if keep { seq![nested_control_line(cs[0].location, ts)] } else { seq![] }, n + 1)),
            None => None,
        }
    } else {
        match lex_simple(cs, file_id) {
            None => None,
            Some((t, k)) => {
                proof {
                    lemma_lex_simple_len(cs, file_id);
                }
                if k >= 1 && k <= cs.len() {
                    match control_line_tokens(
                        cs.skip(k as int),
                        line_start_after(cs[0].value, at_start_of_line),
                        keep,
                        file_id,
                    ) {
                        Some((ts, n)) => Some((if keep { seq![t] + ts } else { ts }, n + k)),
                        None => None,
                    }
                } else {
                    None
                }
            },
        }
    }
}

/// The tokens of a lexed control line (empty where there is none).
pub open spec fn ctl_text(c: Option<(Seq<Spanned<TokenView>>, nat)>) -> Seq<Spanned<TokenView>> {
    match c {
        Some((ts, _)) => ts,
        None => seq![],
    }
}

/// How many characters a lexed control line takes (none where there is none).
pub open spec fn ctl_len(c: Option<(Seq<Spanned<TokenView>>, nat)>) -> nat {
    match c {
        Some((_, n)) => n,
        None => 0,
    }
}

/// Turns prelexed characters into preprocessing tokens.
#[derive(Debug)]
pub struct Lexer {
    /// The file the characters come from.
    pub file_id: usize,
    pub chars: PeekMoreIterator<IntoIter<Spanned<char>>>,
    at_start_of_line: bool,
    inside_control_line: bool,
}

impl Lexer {
    /// The characters not lexed yet.
    pub closed spec fn pending(&self) -> Seq<Spanned<char>> {
        pending_spanned_chars(self.chars)
    }

    /// The file the characters come from.
    pub closed spec fn file(&self) -> usize {
        self.file_id
    }

    /// Whether the next `#` would start a control line.
    pub closed spec fn at_line_start(&self) -> bool {
        self.at_start_of_line
    }

    pub fn new(file_id: usize, source: &str) -> (r: Lexer)
        requires
            4 * source@.len() <= usize::MAX,
        ensures
            r.file() == file_id,
            r.at_line_start(),
            r.pending() == crate::prelexer::prelex_spec(source@, 0, file_id),
    {
        let chars = prelex(file_id, source);
        Lexer {
            chars: spanned_char_stream(chars),
            at_start_of_line: true,
            inside_control_line: false,
            file_id,
        }
    }

    fn span<T>(&self, start: usize, end: usize, value: T) -> (r: Spanned<T>)
        ensures
            r.value == value,
            r.location == span_of(start, end, self.file_id),
    {
        Spanned::new(Location { range: start..end, file_id: self.file_id }, value)
    }

    fn peek_value(&mut self, n: usize) -> (r: Option<char>)
        requires
            n < 4,
        ensures
            final(self).pending() == old(self).pending(),
            final(self).file() == old(self).file(),
            final(self).at_line_start() == old(self).at_line_start(),
            n < old(self).pending().len() ==> r == Some(old(self).pending()[n as int].value),
            n >= old(self).pending().len() ==> r is None,
    {
        match peek_spanned_char(&mut self.chars, n) {
            Some(c) => Some(c.value),
            None => None,
        }
    }

    /// Takes the longest run of identifier characters after `first`.
    pub fn lex_identifier(&mut self, first_character: &Spanned<char>) -> (r: Spanned<String>)
        ensures
            final(self).file() == old(self).file(),
            final(self).at_line_start() == old(self).at_line_start(),
            final(self).pending() == old(self).pending().skip(identifier_run(old(self).pending()) as int),
            r.value@ == seq![first_character.value] + text(
                old(self).pending().take(identifier_run(old(self).pending()) as int),
            ),
            r.location == span_of(
                first_character.location.range.start,
                end_after(*first_character, old(self).pending(), identifier_run(old(self).pending())),
                old(self).file(),
            ),
    {
        let ghost cs = self.pending();
        let mut ident = String::new();
        push_char(&mut ident, first_character.value);
        let mut previous_end = first_character.end();
        let ghost mut n: nat = 0;
        loop
            invariant
                self.file_id == old(self).file(),
                self.at_start_of_line == old(self).at_line_start(),
                cs == old(self).pending(),
                n <= cs.len(),
                self.pending() == cs.skip(n as int),
                identifier_run(cs) == n + identifier_run(cs.skip(n as int)),
                ident@ == seq![first_character.value] + text(cs.take(n as int)),
                previous_end == end_after(*first_character, cs, n),
            decreases cs.len() - n,
        {
            let p = self.peek_value(0);
            let go = match p {
                Some(c) => identifier(c),
                None => false,
            };
            if !go {
                assert(identifier_run(cs.skip(n as int)) == 0);
                return self.span(first_character.start(), previous_end, ident);
            }
            let next = next_spanned_char(&mut self.chars).unwrap();
            proof {
                assert(cs.skip(n as int).drop_first() =~= cs.skip(n + 1int));
                assert(text(cs.take(n + 1int)) =~= text(cs.take(n as int)).push(next.value));
                n = n + 1;
            }
            previous_end = next.end();
            push_char(&mut ident, next.value);
        }
    }

    /// Takes the rest of a preprocessing number that starts with `first`.
    pub fn lex_number(&mut self, first_character: &Spanned<char>) -> (r: Spanned<String>)
        ensures
            final(self).file() == old(self).file(),
            final(self).at_line_start() == old(self).at_line_start(),
            final(self).pending() == old(self).pending().skip(number_run(old(self).pending(), false) as int),
            r.value@ == seq![first_character.value] + text(
                old(self).pending().take(number_run(old(self).pending(), false) as int),
            ),
            r.location == span_of(
                first_character.location.range.start,
                end_after(*first_character, old(self).pending(), number_run(old(self).pending(), false)),
                old(self).file(),
            ),
    {
        let ghost cs = self.pending();
        let start = first_character.start();
        let mut end = first_character.end();
        let mut number = String::new();
        push_char(&mut number, first_character.value);
        let mut expecting_exponent = false;
        let ghost mut n: nat = 0;
        assert(cs.skip(0) =~= cs);
        loop
            invariant
                self.file_id == old(self).file(),
                self.at_start_of_line == old(self).at_line_start(),
                cs == old(self).pending(),
                n <= cs.len(),
                self.pending() == cs.skip(n as int),
                number_run(cs, false) == n + number_run(cs.skip(n as int), expecting_exponent),
                start == first_character.location.range.start,
                number@ == seq![first_character.value] + text(cs.take(n as int)),
                end == end_after(*first_character, cs, n),
            decreases cs.len() - n,
        {
            let p = self.peek_value(0);
            let c = match p {
                Some(c) => c,
                None => {
                    assert(number_run(cs.skip(n as int), expecting_exponent) == 0);
                    return self.span(start, end, number);
                },
            };
            if c == 'e' || c == 'E' || c == 'p' || c == 'P' {
                expecting_exponent = true;
            } else if (c == '+' || c == '-') && expecting_exponent {
                expecting_exponent = false;
            } else if c == '.' || digit(c) || nondigit(c) {
            } else {
                assert(number_run(cs.skip(n as int), expecting_exponent) == 0);
                return self.span(start, end, number);
            }
            let next = next_spanned_char(&mut self.chars).unwrap();
            proof {
                assert(cs.skip(n as int).drop_first() =~= cs.skip(n + 1int));
                assert(text(cs.take(n + 1int)) =~= text(cs.take(n as int)).push(next.value));
                n = n + 1;
            }
            end = next.end();
            push_char(&mut number, next.value);
        }
    }

    /// Takes the body of a literal closed by `quote`, whose opening quote is at `location`.
    fn lex_quoted(&mut self, location: &Location, quote: char) -> (r: PResult<Spanned<String>>)
        ensures
            final(self).file() == old(self).file(),
            final(self).at_line_start() == old(self).at_line_start(),
            is_suffix(old(self).pending(), final(self).pending()),
            ({
                let (content, n, ok) = quoted_scan(old(self).pending(), quote);
                &&& ok <==> r is Ok
                &&& r is Ok ==> final(self).pending() == old(self).pending().skip(n as int)
                &&& r is Ok ==> r->Ok_0.value@ == content
                &&& r is Ok ==> r->Ok_0.location == span_of(
                    location.range.start,
                    if n == 0 { location.range.end } else { old(self).pending()[n - 1].location.range.end },
                    old(self).file(),
                )
            }),
    {
        let ghost cs = self.pending();
        let mut content = String::new();
        let mut end = location.range.end;
        let ghost mut n: nat = 0;
        loop
            invariant
                self.file_id == old(self).file(),
                self.at_start_of_line == old(self).at_line_start(),
                cs == old(self).pending(),
                n <= cs.len(),
                self.pending() == cs.skip(n as int),
                ({
                    let whole = quoted_scan(cs, quote);
                    let part = quoted_scan(cs.skip(n as int), quote);
                    &&& whole.0 == content@ + part.0
                    &&& whole.1 == n + part.1
                    &&& whole.2 == part.2
                }),
                end == if n == 0 { location.range.end } else { cs[n - 1].location.range.end },
            decreases cs.len() - n,
        {
            let ghost rest = cs.skip(n as int);
            let p = self.peek_value(0);
            let c = match p {
                Some(c) => c,
                None => {
                    return Ok(self.span(location.range.start, end, content));
                },
            };
            if c == quote {
                let end_quote = next_spanned_char(&mut self.chars).unwrap();
                proof {
                    assert(cs.skip(n as int).drop_first() =~= cs.skip(n + 1int));
                    n = n + 1;
                }
                end = end_quote.end();
                return Ok(self.span(location.range.start, end, content));
            }
            let ghost mut escaped = false;
            if c == '\\' {
                let p1 = self.peek_value(1);
                match p1 {
                    None => {
                        return Err(simple_error(location, "backslash at the end of the input"));
                    },
                    Some(c1) => {
                        if c1 == quote || c1 == '\\' {
                            // Skip \
                            next_spanned_char(&mut self.chars).unwrap();
                            proof {
                                escaped = true;
                            }
                        }
                    },
                }
            }
            let next = next_spanned_char(&mut self.chars).unwrap();
            proof {
                if escaped {
                    assert(rest.drop_first().drop_first() =~= rest.skip(2));
                    assert(rest.skip(2) =~= cs.skip(n + 2int));
                    n = n + 2;
                } else {
                    assert(rest.drop_first() =~= cs.skip(n + 1int));
                    n = n + 1;
                }
            }
            end = next.end();
            push_char(&mut content, next.value);
        }
    }

    /// Takes the body of a string literal whose opening quote is at `location`.
    pub fn lex_string_literal(&mut self, location: &Location) -> (r: PResult<Spanned<String>>)
        ensures
            final(self).file() == old(self).file(),
            final(self).at_line_start() == old(self).at_line_start(),
            is_suffix(old(self).pending(), final(self).pending()),
            ({
                let (content, n, ok) = quoted_scan(old(self).pending(), '"');
                &&& ok <==> r is Ok
                &&& r is Ok ==> final(self).pending() == old(self).pending().skip(n as int)
                &&& r is Ok ==> r->Ok_0.value@ == content
                &&& r is Ok ==> r->Ok_0.location == span_of(
                    location.range.start,
                    if n == 0 { location.range.end } else { old(self).pending()[n - 1].location.range.end },
                    old(self).file(),
                )
            }),
    {
        self.lex_quoted(location, '"')
    }

    /// Takes the body of a character literal whose opening quote is at `location`.
    pub fn lex_char_literal(&mut self, location: &Location) -> (r: PResult<Spanned<String>>)
        ensures
            final(self).file() == old(self).file(),
            final(self).at_line_start() == old(self).at_line_start(),
            is_suffix(old(self).pending(), final(self).pending()),
            ({
                let (content, n, ok) = quoted_scan(old(self).pending(), '\'');
                &&& ok <==> r is Ok
                &&& r is Ok ==> final(self).pending() == old(self).pending().skip(n as int)
                &&& r is Ok ==> r->Ok_0.value@ == content
                &&& r is Ok ==> r->Ok_0.location == span_of(
                    location.range.start,
                    if n == 0 { location.range.end } else { old(self).pending()[n - 1].location.range.end },
                    old(self).file(),
                )
            }),
    {
        self.lex_quoted(location, '\'')
    }

    /// The next preprocessing token: `Ok(None)` when the characters are used up, an error
    /// where no token can be formed (a character outside the basic character set, a
    /// backslash ending the input inside a literal, a control line cut off by the end).
    #[verifier::rlimit(80)]
    #[verifier::spinoff_prover]
    pub fn next_token(&mut self) -> (r: PResult<Option<Spanned<PreprocessingToken>>>)
        ensures
            final(self).file() == old(self).file(),
            is_suffix(old(self).pending(), final(self).pending()),
            r matches Ok(Some(_)) ==> final(self).pending().len() < old(self).pending().len(),
            old(self).pending().len() == 0 ==> r matches Ok(None),
            ({
                let cs = old(self).pending();
                cs.len() > 0 && !starts_comment(cs) && !starts_control_line(cs, old(self).at_line_start())
                    ==> match lex_simple(cs, old(self).file()) {
                    Some((t, k)) => {
                        &&& r matches Ok(Some(tok)) && spanned_view(tok) == t
                        &&& final(self).pending() == cs.skip(k as int)
                        &&& final(self).at_line_start() == if cs[0].value == ' ' || cs[0].value == '\t' {
                            old(self).at_line_start()
                        } else {
                            cs[0].value == '\n'
                        }
                    },
                    None => r is Err,
                }
            }),
            starts_comment(old(self).pending()) ==> ({
                let cs = old(self).pending();
                let block = cs[1].value == '*';
                match comment_end(cs, 1, block) {
                    Some(k) => {
                        &&& r matches Ok(Some(tok)) && spanned_view(tok) == Spanned {
                            value: TokenView::Whitespace(Whitespace::Newline),
                            location: cs[k].location,
                        }
                        &&& final(self).pending() == cs.skip(if block { k + 2 } else { k + 1 })
                        &&& final(self).at_line_start() == old(self).at_line_start()
                    },
                    None => r matches Ok(None) && final(self).pending().len() == 0,
                }
            }),
            starts_control_line(old(self).pending(), old(self).at_line_start()) ==> (r matches Ok(
                Some(tok),
            ) ==> tok.value is ControlLine),
            starts_control_line(old(self).pending(), old(self).at_line_start()) && control_line_tokens(
                old(self).pending().drop_first(),
                true,
                true,
                old(self).file(),
            ) is None ==> r is Err,
            starts_control_line(old(self).pending(), old(self).at_line_start()) ==> ({
                let cs = old(self).pending();
                control_line_tokens(cs.drop_first(), true, true, old(self).file()) matches Some((ts, n)) ==> {
                    &&& r matches Ok(Some(tok)) && tok.value is ControlLine
                    &&& r matches Ok(Some(tok)) && tokens_view(tok.value->ControlLine_0@) == ts
                    &&& r matches Ok(Some(tok)) && tok.location.range.start == cs[0].location.range.start
                    &&& r matches Ok(Some(tok)) && tok.location.range.end == if ts.len() == 0 {
                        cs[0].location.range.end
                    } else {
                        ts.last().location.range.end
                    }
                    &&& r matches Ok(Some(tok)) && tok.location.file_id == cs[0].location.file_id
                    &&& final(self).pending() == cs.skip(n + 1int)
                    &&& !final(self).at_line_start()
                }
            }),
        decreases self.pending().len(),
    {
        let ghost cs = self.pending();
        let first = match next_spanned_char(&mut self.chars) {
            Some(c) => c,
            None => {
                assert(cs.skip(0) =~= cs);
                return Ok(None);
            },
        };
        let ghost rest = cs.drop_first();
        let v = first.value;
        let is_newline = v == '\n';
        let p0 = self.peek_value(0);
        let p1 = self.peek_value(1);
        let d0 = match p0 {
            Some(c) => digit(c),
            None => false,
        };
        let token: Spanned<PreprocessingToken>;
        if nondigit(v) {
            let ident = self.lex_identifier(&first);
            proof {
                lemma_identifier_run_len(rest);
                assert(rest.skip(identifier_run(rest) as int) =~= cs.skip(identifier_run(rest) + 1int));
            }
            token = Spanned::new(ident.location, PreprocessingToken::Identifier(ident.value));
        } else if v == '"' {
            let string = self.lex_string_literal(&first.location);
            proof {
                assert(rest =~= cs.skip(cs.len() - rest.len()));
                lemma_suffix_trans(cs, rest, self.pending());
            }
            let string = string?;
            proof {
                lemma_quoted_scan_len(rest, '"');
                let n = quoted_scan(rest, '"').1;
                assert(rest.skip(n as int) =~= cs.skip(n + 1int));
            }
            token = Spanned::new(string.location, PreprocessingToken::StringLiteral(string.value));
        } else if v == '\'' {
            let string = self.lex_char_literal(&first.location);
            proof {
                assert(rest =~= cs.skip(cs.len() - rest.len()));
                lemma_suffix_trans(cs, rest, self.pending());
            }
            let string = string?;
            proof {
                lemma_quoted_scan_len(rest, '\'');
                let n = quoted_scan(rest, '\'').1;
                assert(rest.skip(n as int) =~= cs.skip(n + 1int));
            }
            token = Spanned::new(string.location, PreprocessingToken::CharLiteral(string.value));
        } else if digit(v) || (v == '.' && d0) {
            let number = self.lex_number(&first);
            proof {
                lemma_number_run_len(rest, false);
                assert(rest.skip(number_run(rest, false) as int) =~= cs.skip(number_run(rest, false) + 1int));
            }
            token = Spanned::new(number.location, PreprocessingToken::PPNumber(number.value));
        } else if v == '/' && p0 == Some('/') {
            // Entirely skip over line comments
            let ghost mut i: int = 1;
            loop
                invariant
                    self.file_id == old(self).file_id,
                    self.at_start_of_line == old(self).at_start_of_line,
                    cs == old(self).pending(),
                    starts_comment(cs),
                    cs[1].value == '/',
                    1 <= i <= cs.len(),
                    self.pending() == cs.skip(i),
                    comment_end(cs, 1, false) == comment_end(cs, i, false),
                decreases cs.len() - i,
            {
                let ghost before = self.pending();
                match next_spanned_char(&mut self.chars) {
                    Some(c) => {
                        assert(before.drop_first() =~= cs.skip(i + 1));
                        if c.value == '\n' {
                            return Ok(Some(Spanned::new(c.location, PreprocessingToken::Whitespace(Whitespace::Newline))));
                        }
                        proof {
                            i = i + 1;
                        }
                    },
                    None => {
                        return Ok(None);
                    },
                }
            }
        } else if v == '/' && p0 == Some('*') {
            // inline comments
            let ghost mut i: int = 1;
            loop
                invariant
                    self.file_id == old(self).file_id,
                    self.at_start_of_line == old(self).at_start_of_line,
                    cs == old(self).pending(),
                    starts_comment(cs),
                    cs[1].value == '*',
                    1 <= i <= cs.len(),
                    self.pending() == cs.skip(i),
                    comment_end(cs, 1, true) == comment_end(cs, i, true),
                decreases cs.len() - i,
            {
                let ghost before = self.pending();
                match next_spanned_char(&mut self.chars) {
                    Some(c) => {
                        assert(before.drop_first() =~= cs.skip(i + 1));
                        if c.value == '*' && self.peek_value(0) == Some('/') {
                            let ghost before2 = self.pending();
                            next_spanned_char(&mut self.chars).unwrap();
                            assert(before2.drop_first() =~= cs.skip(i + 2));
                            return Ok(Some(Spanned::new(c.location, PreprocessingToken::Whitespace(Whitespace::Newline))));
                        }
                        proof {
                            i = i + 1;
                        }
                    },
                    None => {
                        return Ok(None);
                    },
                }
            }
        } else if v == '#' && self.at_start_of_line {
            let mut tokens: Vec<Spanned<PreprocessingToken>> = Vec::new();
            let mut end = first.location.duplicate();
            let mut add = true;
            let ghost ctl = control_line_tokens(rest, true, true, self.file_id);
            let ghost mut j: nat = 0;
            loop
                invariant
                    self.file_id == old(self).file_id,
                    cs == old(self).pending(),
                    is_suffix(cs, self.pending()),
                    self.pending().len() < cs.len(),
                    starts_control_line(cs, old(self).at_line_start()),
                    rest == cs.drop_first(),
                    first.location == cs[0].location,
                    ctl == control_line_tokens(rest, true, true, self.file_id),
                    ctl is None ==> control_line_tokens(self.pending(), self.at_start_of_line, add, self.file_id) is None,
                    ctl is Some ==> {
                        &&& 1 + j <= cs.len()
                        &&& self.pending() == cs.skip(1int + j)
                        &&& control_line_tokens(self.pending(), self.at_start_of_line, add, self.file_id) is Some
                        &&& ctl_text(ctl) == tokens_view(tokens@) + ctl_text(
                            control_line_tokens(self.pending(), self.at_start_of_line, add, self.file_id),
                        )
                        &&& ctl_len(ctl) == j + ctl_len(
                            control_line_tokens(self.pending(), self.at_start_of_line, add, self.file_id),
                        )
                        &&& end == if tokens@.len() == 0 {
                            first.location
                        } else {
                            tokens@.last().location
                        }
                    },
                ensures
                    self.file_id == old(self).file_id,
                    is_suffix(cs, self.pending()),
                    self.pending().len() < cs.len(),
                    ctl is Some,
                    ctl is Some ==> {
                        &&& tokens_view(tokens@) == ctl_text(ctl)
                        &&& self.pending() == cs.skip(1int + ctl_len(ctl))
                        &&& end == if tokens@.len() == 0 {
                            first.location
                        } else {
                            tokens@.last().location
                        }
                    },
                decreases self.pending().len(),
            {
                let q0 = self.peek_value(0);
                match q0 {
                    None => {
                        proof {
                            if ctl is Some {
                                assert(tokens_view(tokens@) + Seq::<Spanned<TokenView>>::empty() =~= tokens_view(tokens@));
                            }
                        }
                        break;
                    },
                    Some(c) => {
                        if c == '\n' {
                            proof {
                                if ctl is Some {
                                    assert(tokens_view(tokens@) + Seq::<Spanned<TokenView>>::empty() =~= tokens_view(tokens@));
                                }
                            }
                            break;
                        }
                    },
                }
                if q0 == Some('/') && self.peek_value(1) == Some('/') {
                    let ghost add_b = add;
                    add = false;
                    let ghost b = self.pending();
                    next_spanned_char(&mut self.chars).unwrap();
                    next_spanned_char(&mut self.chars).unwrap();
                    assert(b.drop_first().drop_first() =~= cs.skip(cs.len() - self.pending().len()));
                    proof {
                        assert(b.skip(2) =~= b.drop_first().drop_first());
                        assert(control_line_tokens(b, self.at_start_of_line, add_b, self.file_id) == match control_line_tokens(
                            b.skip(2),
                            self.at_start_of_line,
                            false,
                            self.file_id,
                        ) {
                            Some((ts, n)) => Some((ts, n + 2)),
                            None => None,
                        });
                        if ctl is Some {
                            j = j + 2;
                        }
                    }
                } else {
                    let ghost b = self.pending();
                    let ghost at_b = self.at_start_of_line;
                    self.inside_control_line = true;
                    let n = self.next_token();
                    proof {
                        lemma_suffix_trans(cs, b, self.pending());
                    }
                    let n = n?;
                    self.inside_control_line = false;
                    match n {
                        Some(n) => {
                            proof {
                                if ctl is None {
                                    if starts_control_line(b, at_b) {
                                        assert(control_line_tokens(b.drop_first(), true, true, self.file_id) is Some);
                                    } else if starts_comment(b) {
                                        let k = comment_end(b, 1, true)->0;
                                        lemma_comment_end_range(b, 1, true);
                                        assert(self.pending() == b.skip(k + 2));
                                    } else {
                                        let (t, k) = lex_simple(b, self.file_id)->0;
                                        lemma_lex_simple_len(b, self.file_id);
                                        assert(self.pending() == b.skip(k as int));
                                    }
                                }
                                if ctl is Some {
                                    assert(b == cs.skip(1int + j));
                                    assert(control_line_tokens(b, at_b, add, self.file_id) is Some);
                                    lemma_tokens_view_push(tokens@, n);
                                    let after = ctl_text(control_line_tokens(self.pending(), self.at_start_of_line, add, self.file_id));
                                    if starts_control_line(b, at_b) {
                                        let (ts, m) = control_line_tokens(b.drop_first(), true, true, self.file_id)->0;
                                        lemma_control_line_stop(b.drop_first(), true, true, self.file_id);
                                        assert(self.pending() == b.skip(m + 1int));
                                        assert(b.skip(m + 1int) =~= cs.skip(1int + j + m + 1));
                                        assert(self.pending().len() == 0 || self.pending()[0].value == '\n');
                                        assert(after.len() == 0);
                                        assert(spanned_view(n) == nested_control_line(b[0].location, ts));
                                        if add {
                                            assert(tokens_view(tokens@.push(n)) + after =~= tokens_view(tokens@) + (seq![
                                                spanned_view(n),
                                            ] + after));
                                        }
                                        j = j + m + 1;
                                    } else if starts_comment(b) {
                                        let k = comment_end(b, 1, true)->0;
                                        lemma_comment_end_range(b, 1, true);
                                        assert(self.pending() == b.skip(k + 2));
                                        assert(b.skip(k + 2) =~= cs.skip(1int + j + k + 2));
                                        if add {
                                            assert(tokens_view(tokens@.push(n)) + after =~= tokens_view(tokens@) + (seq![
                                                spanned_view(n),
                                            ] + after));
                                        }
                                        j = j + (k + 2) as nat;
                                    } else {
                                        assert(lex_simple(b, self.file_id) is Some);
                                        let (t, k) = lex_simple(b, self.file_id)->0;
                                        lemma_lex_simple_len(b, self.file_id);
                                        assert(self.pending() == b.skip(k as int));
                                        assert(b.skip(k as int) =~= cs.skip(1int + j + k));
                                        if add {
                                            assert(tokens_view(tokens@.push(n)) + after =~= tokens_view(tokens@) + (seq![t]
                                                + after));
                                        }
                                        j = j + k;
                                    }
                                }
                            }
                            if add {
                                end = n.location.duplicate();
                                tokens.push(n);
                            }
                        },
                        None => {
                            return Err(simple_error(&first.location, "control line ended inside a comment"));
                        },
                    }
                }
            }
            proof {
                lemma_tokens_view(tokens@);
            }
            token = Spanned::new(first.location.until(&end), PreprocessingToken::ControlLine(tokens));
        } else if v == '<' && p0 == Some('<') && p1 == Some('=') {
            next_spanned_char(&mut self.chars).unwrap();
            let last_char = next_spanned_char(&mut self.chars).unwrap();
            assert(cs.skip(3) =~= rest.drop_first().drop_first());
            token = self.span(first.start(), last_char.end(), PreprocessingToken::Punctuator(Punctuator::LeftLeftEqual));
        } else if v == '>' && p0 == Some('>') && p1 == Some('=') {
            next_spanned_char(&mut self.chars).unwrap();
            let last_char = next_spanned_char(&mut self.chars).unwrap();
            assert(cs.skip(3) =~= rest.drop_first().drop_first());
            token = self.span(first.start(), last_char.end(), PreprocessingToken::Punctuator(Punctuator::RightRightEqual));
        } else if v == '.' && p0 == Some('.') && p1 == Some('.') {
            next_spanned_char(&mut self.chars).unwrap();
            let last_dot = next_spanned_char(&mut self.chars).unwrap();
            assert(cs.skip(3) =~= rest.drop_first().drop_first());
            token = self.span(first.start(), last_dot.end(), PreprocessingToken::Punctuator(Punctuator::DotDotDot));
        } else if p0.is_some() && two_char_punctuator(v, p0.unwrap()).is_some() {
            let p = two_char_punctuator(v, p0.unwrap()).unwrap();
            next_spanned_char(&mut self.chars).unwrap();
            assert(cs.skip(2) =~= rest.drop_first());
            token = Spanned::new(first.location, PreprocessingToken::Punctuator(p));
        } else if Punctuator::is_punctuation(v) {
            let p = Punctuator::from_char(v).unwrap();
            assert(cs.skip(1) =~= rest);
            token = Spanned::new(first.location, PreprocessingToken::Punctuator(p));
        } else if v == ' ' {
            assert(cs.skip(1) =~= rest);
            // return early, so we dont clobber "at_start_of_line"
            return Ok(Some(Spanned::new(first.location, PreprocessingToken::Whitespace(Whitespace::Space))));
        } else if v == '\t' {
            assert(cs.skip(1) =~= rest);
            return Ok(Some(Spanned::new(first.location, PreprocessingToken::Whitespace(Whitespace::Tab))));
        } else if v == '\n' {
            assert(cs.skip(1) =~= rest);
            token = Spanned::new(first.location, PreprocessingToken::Whitespace(Whitespace::Newline));
        } else if v == '\u{c}' {
            // "form feed"
            assert(cs.skip(1) =~= rest);
            token = Spanned::new(first.location, PreprocessingToken::Whitespace(Whitespace::Space));
        } else {
            return Err(simple_error(&first.location, "unimplemented char"));
        }
        // Set this after lexing the token, otherwise it would always be false for non-newline tokens
        self.at_start_of_line = is_newline;
        Ok(Some(token))
    }

    /// Every token that is left, in order.
    pub fn lex_all(&mut self) -> (r: PResult<Vec<Spanned<PreprocessingToken>>>)
        ensures
            simple_tokens(old(self).pending(), old(self).at_line_start(), old(self).file()) matches Some(ts)
                ==> r matches Ok(v) && tokens_view(v@) == ts,
            match all_tokens(old(self).pending(), old(self).at_line_start(), old(self).file()) {
                Some(ts) => r matches Ok(v) && tokens_view(v@) == ts,
                None => r is Err,
            },
    {
        let ghost cs0 = self.pending();
        let ghost at0 = self.at_line_start();
        let mut out: Vec<Spanned<PreprocessingToken>> = Vec::new();
        loop
            invariant
                self.file() == old(self).file(),
                cs0 == old(self).pending(),
                at0 == old(self).at_line_start(),
                simple_tokens(cs0, at0, self.file()) is Some ==> {
                    &&& simple_tokens(self.pending(), self.at_line_start(), self.file()) is Some
                    &&& simple_tokens(cs0, at0, self.file())->0 == tokens_view(out@) + simple_tokens(
                        self.pending(),
                        self.at_line_start(),
                        self.file(),
                    )->0
                },
                match all_tokens(cs0, at0, self.file()) {
                    Some(ts) => all_tokens(self.pending(), self.at_line_start(), self.file()) matches Some(rest) && ts
                        == tokens_view(out@) + rest,
                    None => all_tokens(self.pending(), self.at_line_start(), self.file()) is None,
                },
            decreases self.pending().len(),
        {
            let ghost cs = self.pending();
            let ghost at = self.at_line_start();
            proof {
                if cs.len() > 0 {
                    lemma_lex_simple_len(cs, self.file());
                }
            }
            let res = self.next_token();
            match res {
                Err(e) => {
                    return Err(e);
                },
                Ok(Some(t)) => {
                    proof {
                        lemma_tokens_view_push(out@, t);
                        let rest = all_tokens(self.pending(), self.at_line_start(), self.file());
                        if let Some(ts) = all_tokens(cs0, at0, self.file()) {
                            assert(tokens_view(out@.push(t)) + rest->0 =~= tokens_view(out@) + (seq![spanned_view(t)]
                                + rest->0));
                        }
                    }
                    proof {
                        if simple_tokens(cs0, at0, self.file()) is Some {
                            assert(simple_tokens(cs, at, self.file()) is Some);
                            let (h, k) = lex_simple(cs, self.file())->0;
                            assert(tokens_view(out@.push(t)) + simple_tokens(self.pending(), self.at_line_start(), self.file())->0
                                =~= tokens_view(out@) + (seq![h] + simple_tokens(self.pending(), self.at_line_start(), self.file())->0));
                        }
                    }
                    out.push(t);
                },
                Ok(None) => {
                    proof {
                        if all_tokens(cs0, at0, self.file()) is Some {
                            assert(tokens_view(out@) + Seq::<Spanned<TokenView>>::empty() =~= tokens_view(out@));
                        }
                        if simple_tokens(cs0, at0, self.file()) is Some {
                            assert(cs.len() == 0);
                            assert(tokens_view(out@) + Seq::<Spanned<TokenView>>::empty() =~= tokens_view(out@));
                        }
                    }
                    return Ok(out);
                },
            }
        }
    }

    /// Skips the spaces and tabs that come next.
    pub fn ignore_preceeding_whitespace(&mut self)
        ensures
            final(self).file() == old(self).file(),
            final(self).at_line_start() == old(self).at_line_start(),
            final(self).pending() == old(self).pending().skip(blank_run(old(self).pending()) as int),
    {
        let ghost cs = self.pending();
        let ghost mut n: nat = 0;
        loop
            invariant
                self.file_id == old(self).file_id,
                self.at_start_of_line == old(self).at_start_of_line,
                cs == old(self).pending(),
                n <= cs.len(),
                self.pending() == cs.skip(n as int),
                blank_run(cs) == n + blank_run(cs.skip(n as int)),
            decreases cs.len() - n,
        {
            let p = self.peek_value(0);
            let skip = match p {
                Some(c) => c == ' ' || c == '\t',
                None => false,
            };
            if !skip {
                return;
            }
            next_spanned_char(&mut self.chars).unwrap();
            proof {
                assert(cs.skip(n as int).drop_first() =~= cs.skip(n + 1int));
                n = n + 1;
            }
        }
    }
}

/// How many spaces and tabs `cs` starts with.
pub open spec fn blank_run(cs: Seq<Spanned<char>>) -> nat
    decreases cs.len(),
{
    if cs.len() > 0 && (cs[0].value == ' ' || cs[0].value == '\t') {
        1 + blank_run(cs.drop_first())
    } else {
        0
    }
}

/// The preprocessing tokens of `source`, read as file `file_id`.
pub fn lex(file_id: usize, source: &str) -> (r: PResult<Vec<Spanned<PreprocessingToken>>>)
    requires
        4 * source@.len() <= usize::MAX,
    ensures
        simple_tokens(crate::prelexer::prelex_spec(source@, 0, file_id), true, file_id) matches Some(ts)
            ==> r matches Ok(v) && tokens_view(v@) == ts,
        match all_tokens(crate::prelexer::prelex_spec(source@, 0, file_id), true, file_id) {
            Some(ts) => r matches Ok(v) && tokens_view(v@) == ts,
            None => r is Err,
        },
        r matches Ok(v) ==> v@.len() <= source@.len(),
{
    proof {
        law_all_tokens_count(crate::prelexer::prelex_spec(source@, 0, file_id), true, file_id);
        crate::lemma_prelex_len(source@, 0, file_id);
        if let Some(ts) = all_tokens(crate::prelexer::prelex_spec(source@, 0, file_id), true, file_id) {
            assert(ts.len() <= source@.len());
        }
    }
    let mut lexer = Lexer::new(file_id, source);
    let r = lexer.lex_all();
    proof {
        if r is Ok {
            lemma_tokens_view(r->Ok_0@);
        }
    }
    r
}

} // verus!

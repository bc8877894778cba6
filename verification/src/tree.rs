//! Grouping of preprocessing tokens into conditional-inclusion trees.
use crate::ast::{copy_token, spanned_view, tokens_view, Delimited, PreprocessingToken, Punctuator, Whitespace};
use crate::errors::{label_view, labels_view, simple_error, DanglingEndif, Diagnostic, DiagnosticSeverity, LabelKind, PResult, UnknownDirective, UnterminatedTreeNode};
use crate::spanned::{Location, Spanned};
use crate::strings::str_eq;
use vstd::prelude::*;

verus! {

/// A control line, read.
#[derive(Debug)]
pub enum ControlLine {
    IfDef { macro_name: String },
    IfNDef { macro_name: String },
    If { condition: Vec<Spanned<PreprocessingToken>> },
    Elif { condition: Vec<Spanned<PreprocessingToken>> },
    Else,
    EndIf,
    DefineFunction {
        macro_name: String,
        parameters: Spanned<PreprocessingToken>,
        replacement_list: Vec<Spanned<PreprocessingToken>>,
    },
    DefineObject { macro_name: String, replacement_list: Vec<Spanned<PreprocessingToken>> },
    Undefine(String),
    Include(HeaderName),
    Error(Location, Option<Spanned<PreprocessingToken>>),
    Warning(Location, Option<Spanned<PreprocessingToken>>),
    Empty,
}

#[derive(Debug)]
pub enum HeaderName {
    /// "header-name.h"
    Q(Spanned<String>),
    /// <header-name.h>
    H(Vec<Spanned<PreprocessingToken>>),
}

/// A token, a directive, or a conditional group with its body and what follows it.
#[derive(Debug)]
pub enum TokenTree {
    Directive(ControlLine),
    IfDef { macro_name: String, body: Vec<TokenTree>, opposition: Box<TokenTree> },
    IfNDef { macro_name: String, body: Vec<TokenTree>, opposition: Box<TokenTree> },
    If { condition: Vec<Spanned<PreprocessingToken>>, body: Vec<TokenTree>, opposition: Box<TokenTree> },
    Elif { condition: Vec<Spanned<PreprocessingToken>>, body: Vec<TokenTree>, opposition: Box<TokenTree> },
    Else {
        body: Vec<TokenTree>,
        /// Must be endif?
        opposition: Box<TokenTree>,
    },
    Endif,
    PreprocessorToken(Spanned<PreprocessingToken>),
    Internal(InternalLeaf),
}

#[derive(Debug)]
pub enum InternalLeaf {
    MacroExpansion(String, Vec<Spanned<PreprocessingToken>>),
    BeginExpandingMacro(String),
    FinishExpandingMacro(String),
}

impl TokenTree {
    /// The token of a leaf.
    pub fn as_token(&self) -> (r: Spanned<PreprocessingToken>)
        requires
            self is PreprocessorToken,
        ensures
            spanned_view(r) == spanned_view(self->PreprocessorToken_0),
    {
        match self {
            TokenTree::PreprocessorToken(spanned) => copy_token(spanned),
            _ => {
                proof {
                    assert(false);
                }
                Spanned::new(Location::new(), PreprocessingToken::Whitespace(Whitespace::Space))
            },
        }
    }
}

/// The first index at or after `i` whose token is not whitespace (or the length).
pub open spec fn skip_ws(s: Seq<Spanned<PreprocessingToken>>, i: int) -> int
    decreases s.len() - i,
{
    if 0 <= i < s.len() && s[i].value is Whitespace {
        skip_ws(s, i + 1)
    } else {
        i
    }
}

/// The first index at or after `i` whose token is `)` (or the length).
pub open spec fn find_right_paren(s: Seq<Spanned<PreprocessingToken>>, i: int) -> int
    decreases s.len() - i,
{
    if 0 <= i < s.len() && !(s[i].value == PreprocessingToken::Punctuator(Punctuator::RightParen)) {
        find_right_paren(s, i + 1)
    } else {
        i
    }
}

/// Whether token `i` of `s` is an identifier spelled `name`.
pub open spec fn identifier_at(s: Seq<Spanned<PreprocessingToken>>, i: int) -> bool {
    0 <= i < s.len() && s[i].value is Identifier
}

pub open spec fn name_at(s: Seq<Spanned<PreprocessingToken>>, i: int) -> Seq<char> {
    s[i].value->Identifier_0@
}

/// Whether `r` is the error with the one label `message` at `location`.
pub open spec fn error_at<T>(r: PResult<T>, location: Location, message: Seq<char>) -> bool {
    &&& r matches Err(e)
    &&& r->Err_0.severity == DiagnosticSeverity::Error
    &&& r->Err_0.labels@.len() == 1
    &&& r->Err_0.labels@[0].location == location
    &&& r->Err_0.labels@[0].message@ == message
}

/// What reading the control line `s` gives, directive by directive.
pub open spec fn reads_as(s: Seq<Spanned<PreprocessingToken>>, r: PResult<ControlLine>) -> bool {
    if s.len() == 0 {
        r matches Ok(ControlLine::Empty)
    } else {
        let d = skip_ws(s, 0);
        if !identifier_at(s, d) {
            error_at(r, s[0].location, "expected identifier after directive character"@)
        } else {
            let name = name_at(s, d);
            let a = skip_ws(s, d + 1);
            if name == "ifdef"@ {
                if identifier_at(s, a) {
                    r matches Ok(ControlLine::IfDef { macro_name }) && macro_name@ == name_at(s, a)
                } else {
                    error_at(r, s[d].location, "expected macro_name in ifdef directive"@)
                }
            } else if name == "ifndef"@ {
                if identifier_at(s, a) {
                    r matches Ok(ControlLine::IfNDef { macro_name }) && macro_name@ == name_at(s, a)
                } else {
                    error_at(r, s[d].location, "expected macro_name in ifndef directive"@)
                }
            } else if name == "else"@ {
                r matches Ok(ControlLine::Else)
            } else if name == "elif"@ {
                r matches Ok(ControlLine::Elif { condition }) && tokens_view(condition@) == tokens_view(s.skip(a))
            } else if name == "if"@ {
                r matches Ok(ControlLine::If { condition }) && tokens_view(condition@) == tokens_view(s.skip(a))
            } else if name == "endif"@ {
                r matches Ok(ControlLine::EndIf)
            } else if name == "define"@ {
                if !identifier_at(s, a) {
                    error_at(r, s[d].location, "expected macro_name in define directive"@)
                } else if a + 1 < s.len() && s[a + 1].value == PreprocessingToken::Punctuator(Punctuator::LeftParen) {
                    let j = find_right_paren(s, a + 2);
                    if j >= s.len() {
                        error_at(r, s[a + 1].location, "unmatched parenthesis in define directive"@)
                    } else {
                        r matches Ok(ControlLine::DefineFunction { macro_name, parameters, replacement_list }) && {
                            &&& macro_name@ == name_at(s, a)
                            &&& parameters.location == s[a + 1].location
                            &&& parameters.value is Delimited
                            &&& parameters.value->Delimited_0.opener == Spanned {
                                location: s[a + 1].location,
                                value: PreprocessingToken::Punctuator(Punctuator::LeftParen),
                            }
                            &&& parameters.value->Delimited_0.closer == Spanned {
                                location: s[j].location,
                                value: PreprocessingToken::Punctuator(Punctuator::RightParen),
                            }
                            &&& tokens_view(parameters.value->Delimited_0.inner_tokens@) == tokens_view(s.subrange(a + 2, j))
                            &&& tokens_view(replacement_list@) == tokens_view(s.skip(skip_ws(s, j + 1)))
                        }
                    }
                } else {
                    r matches Ok(ControlLine::DefineObject { macro_name, replacement_list }) && macro_name@ == name_at(s, a)
                        && tokens_view(replacement_list@) == tokens_view(s.skip(skip_ws(s, a + 1)))
                }
            } else if name == "undef"@ {
                if identifier_at(s, a) {
                    r matches Ok(ControlLine::Undefine(macro_name)) && macro_name@ == name_at(s, a)
                } else {
                    error_at(r, s[d].location, "expected macro_name in undef directive"@)
                }
            } else if name == "error"@ {
                r matches Ok(ControlLine::Error(location, reason)) && location == s[d].location && (if a < s.len() {
                    reason matches Some(t) && spanned_view(t) == spanned_view(s[a])
                } else {
                    reason is None
                })
            } else if name == "warning"@ {
                r matches Ok(ControlLine::Warning(location, reason)) && location == s[d].location && (if d + 1 < s.len() {
                    reason matches Some(t) && spanned_view(t) == spanned_view(s[d + 1])
                } else {
                    reason is None
                })
            } else if name == "pragma"@ || name == "version"@ {
                r matches Ok(ControlLine::Empty)
            } else {
                &&& r matches Err(e)
                &&& r->Err_0.title@ == "Unknown directive"@
                &&& r->Err_0.labels@.len() == 1
                &&& r->Err_0.labels@[0].kind == LabelKind::Primary
                &&& r->Err_0.labels@[0].message@ == ""@
                &&& r->Err_0.labels@[0].location.range.start == s[0].location.range.start
                &&& r->Err_0.labels@[0].location.range.end == s.last().location.range.end
            }
        }
    }
}

/// The index of the first token at or after `i` that is not whitespace.
pub fn skip_whitespace(s: &[Spanned<PreprocessingToken>], i: usize) -> (r: usize)
    requires
        i <= s@.len(),
    ensures
        r == skip_ws(s@, i as int),
        i <= r <= s@.len(),
{
    let mut j = i;
    while j < s.len()
        invariant
            i <= j <= s@.len(),
            skip_ws(s@, i as int) == skip_ws(s@, j as int),
        decreases s@.len() - j,
    {
        match &s[j].value {
            PreprocessingToken::Whitespace(_) => {
                j += 1;
            },
            _ => {
                return j;
            },
        }
    }
    j
}

/// A copy of `s[i..]`.
pub fn copy_from(s: &[Spanned<PreprocessingToken>], i: usize) -> (r: Vec<Spanned<PreprocessingToken>>)
    requires
        i <= s@.len(),
    ensures
        tokens_view(r@) == tokens_view(s@.skip(i as int)),
{
    copy_range(s, i, s.len())
}

/// A copy of `s[i..j]`.
pub fn copy_range(s: &[Spanned<PreprocessingToken>], i: usize, j: usize) -> (r: Vec<Spanned<PreprocessingToken>>)
    requires
        i <= j <= s@.len(),
    ensures
        tokens_view(r@) == tokens_view(s@.subrange(i as int, j as int)),
{
    let mut r: Vec<Spanned<PreprocessingToken>> = Vec::new();
    let mut k = i;
    while k < j
        invariant
            i <= k <= j <= s@.len(),
            tokens_view(r@) == tokens_view(s@.subrange(i as int, k as int)),
        decreases j - k,
    {
        let t = copy_token(&s[k]);
        proof {
            crate::ast::lemma_tokens_view_push(r@, t);
            crate::ast::lemma_tokens_view_push(s@.subrange(i as int, k as int), s@[k as int]);
            assert(s@.subrange(i as int, k as int).push(s@[k as int]) =~= s@.subrange(i as int, k + 1));
        }
        r.push(t);
        k += 1;
    }
    r
}

/// The identifier at token `i`, if there is one.
pub fn expect_identifier(s: &[Spanned<PreprocessingToken>], i: usize) -> (r: Option<Spanned<String>>)
    ensures
        r is Some <==> identifier_at(s@, i as int),
        r matches Some(n) ==> n.value@ == name_at(s@, i as int) && n.location == s@[i as int].location,
{
    if i >= s.len() {
        return None;
    }
    match &s[i].value {
        PreprocessingToken::Identifier(name) => Some(Spanned::new(s[i].location.duplicate(), name.clone())),
        _ => None,
    }
}

/// Reads a control line (the tokens after its `#`).
#[verifier::loop_isolation(false)]
pub fn parse_control_line(tokens: &[Spanned<PreprocessingToken>], file_id: usize) -> (r: PResult<ControlLine>)
    ensures
        reads_as(tokens@, r),
{
    let ghost s = tokens@;
    // Handle empty directive
    if tokens.len() == 0 {
        return Ok(ControlLine::Empty);
    }
    let d = skip_whitespace(tokens, 0);
    let directive = match expect_identifier(tokens, d) {
        Some(n) => n,
        None => {
            return Err(simple_error(&tokens[0].location, "expected identifier after directive character"));
        },
    };
    let directive_name = directive.value.as_str();
    let a = if d < tokens.len() { skip_whitespace(tokens, d + 1) } else { d };
    if str_eq(directive_name, "ifdef") {
        match expect_identifier(tokens, a) {
            Some(macro_name) => Ok(ControlLine::IfDef { macro_name: macro_name.value }),
            None => Err(simple_error(&directive.location, "expected macro_name in ifdef directive")),
        }
    } else if str_eq(directive_name, "ifndef") {
        match expect_identifier(tokens, a) {
            Some(macro_name) => Ok(ControlLine::IfNDef { macro_name: macro_name.value }),
            None => Err(simple_error(&directive.location, "expected macro_name in ifndef directive")),
        }
    } else if str_eq(directive_name, "else") {
        Ok(ControlLine::Else)
    } else if str_eq(directive_name, "elif") {
        Ok(ControlLine::Elif { condition: copy_from(tokens, a) })
    } else if str_eq(directive_name, "if") {
        Ok(ControlLine::If { condition: copy_from(tokens, a) })
    } else if str_eq(directive_name, "endif") {
        Ok(ControlLine::EndIf)
    } else if str_eq(directive_name, "define") {
        let macro_name = match expect_identifier(tokens, a) {
            Some(m) => m,
            None => {
                return Err(simple_error(&directive.location, "expected macro_name in define directive"));
            },
        };
        let is_paren = a + 1 < tokens.len() && match &tokens[a + 1].value {
            PreprocessingToken::Punctuator(Punctuator::LeftParen) => true,
            _ => false,
        };
        if is_paren {
            let opener = &tokens[a + 1];
            let mut j = a + 2;
            while j < tokens.len()
                invariant
                    a + 2 <= j <= s.len(),
                    tokens@ == s,
                    find_right_paren(s, a + 2) == find_right_paren(s, j as int),
                decreases s.len() - j,
            {
                match &tokens[j].value {
                    PreprocessingToken::Punctuator(Punctuator::RightParen) => {
                        break;
                    },
                    _ => {
                        j += 1;
                    },
                }
            }
            if j >= tokens.len() {
                return Err(simple_error(&opener.location, "unmatched parenthesis in define directive"));
            }
            let parameters_token = PreprocessingToken::Delimited(
                Box::new(
                    Delimited {
                        opener: Spanned::new(opener.location.duplicate(), PreprocessingToken::Punctuator(Punctuator::LeftParen)),
                        closer: Spanned::new(tokens[j].location.duplicate(), PreprocessingToken::Punctuator(Punctuator::RightParen)),
                        inner_tokens: copy_range(tokens, a + 2, j),
                    },
                ),
            );
            let rest = skip_whitespace(tokens, j + 1);
            Ok(
                ControlLine::DefineFunction {
                    macro_name: macro_name.value,
                    parameters: Spanned::new(opener.location.duplicate(), parameters_token),
                    replacement_list: copy_from(tokens, rest),
                },
            )
        } else {
            let rest = skip_whitespace(tokens, a + 1);
            Ok(ControlLine::DefineObject { macro_name: macro_name.value, replacement_list: copy_from(tokens, rest) })
        }
    } else if str_eq(directive_name, "undef") {
        match expect_identifier(tokens, a) {
            Some(macro_name) => Ok(ControlLine::Undefine(macro_name.value)),
            None => Err(simple_error(&directive.location, "expected macro_name in undef directive")),
        }
    } else if str_eq(directive_name, "error") {
        let reason = if a < tokens.len() { Some(copy_token(&tokens[a])) } else { None };
        Ok(ControlLine::Error(directive.location, reason))
    } else if str_eq(directive_name, "warning") {
        let reason = if d + 1 < tokens.len() { Some(copy_token(&tokens[d + 1])) } else { None };
        Ok(ControlLine::Warning(directive.location, reason))
    } else if str_eq(directive_name, "pragma") {
        Ok(ControlLine::Empty)
    } else if str_eq(directive_name, "version") {
        Ok(ControlLine::Empty)
    } else {
        let err = UnknownDirective(
            Location {
                range: tokens[0].location.range.start..tokens[tokens.len() - 1].location.range.end,
                file_id,
            },
        );
        let report = err.into_report();
        proof {
            assert(labels_view(report.labels@).len() == report.labels@.len());
            assert(labels_view(report.labels@)[0] == label_view(report.labels@[0]));
        }
        Err(report)
    }
}

/// Groups a slice of preprocessing tokens into token trees, one tree at a time.
#[derive(Debug)]
pub struct IntoTokenTree<'a> {
    /// The file the tokens come from.
    pub file_id: usize,
    pub tokens: &'a [Spanned<PreprocessingToken>],
    /// The index of the next token to read.
    pub position: usize,
    pub expecting_opposition: bool,
}

/// Whether `tree` is a leaf holding (a copy of) `t`.
pub open spec fn is_leaf_of(tree: TokenTree, t: Spanned<PreprocessingToken>) -> bool {
    tree matches TokenTree::PreprocessorToken(x) && spanned_view(x) == spanned_view(t)
}

/// Whether `t` is a control line.
pub open spec fn is_control_line(t: Spanned<PreprocessingToken>) -> bool {
    t.value is ControlLine
}

/// The name of the directive of a control line, where it has one.
pub open spec fn directive_name(t: Spanned<PreprocessingToken>) -> Option<Seq<char>> {
    if t.value is ControlLine {
        let s = t.value->ControlLine_0@;
        let d = skip_ws(s, 0);
        if identifier_at(s, d) {
            Some(name_at(s, d))
        } else {
            None
        }
    } else {
        None
    }
}

/// Whether `t` is a control line that reads as nothing: empty, `#pragma` or `#version`.
pub open spec fn is_empty_line(t: Spanned<PreprocessingToken>) -> bool {
    t.value is ControlLine && (t.value->ControlLine_0@.len() == 0 || directive_name(t) == Some("pragma"@)
        || directive_name(t) == Some("version"@))
}

/// Whether `t` is a control line that ends a conditional group: `#endif`, `#else`, `#elif`.
pub open spec fn is_closer(t: Spanned<PreprocessingToken>) -> bool {
    directive_name(t) == Some("endif"@) || directive_name(t) == Some("else"@) || directive_name(t) == Some("elif"@)
}

/// The first index at or after `i` that does not hold a control line reading as nothing.
pub open spec fn skip_empty(toks: Seq<Spanned<PreprocessingToken>>, i: int) -> int
    decreases toks.len() - i,
{
    if 0 <= i < toks.len() && is_empty_line(toks[i]) {
        skip_empty(toks, i + 1)
    } else {
        i
    }
}

/// Where a group body that ended at `m` is closed: the index of the `#endif`, `#else` or
/// `#elif` that follows it (control lines reading as nothing aside).
pub open spec fn closes_at(toks: Seq<Spanned<PreprocessingToken>>, m: Option<int>) -> Option<int> {
    match m {
        Some(m) => {
            let q = skip_empty(toks, m);
            if 0 <= q < toks.len() && is_closer(toks[q]) {
                Some(q)
            } else {
                None
            }
        },
        None => None,
    }
}

/// Where `tree` ends when it is what the tokens of `toks` from `pos` on group into (with
/// `#elif` and `#else` allowed at the start when `exp`): the index after its last token;
/// `None` when it is not.
pub open spec fn tree_end(toks: Seq<Spanned<PreprocessingToken>>, pos: int, exp: bool, tree: TokenTree) -> Option<int>
    decreases tree, 1int,
{
    let p = skip_empty(toks, pos);
    if !(0 <= p < toks.len()) {
        None
    } else {
        let t = toks[p];
        let inner = t.value->ControlLine_0@;
        match tree {
            TokenTree::PreprocessorToken(x) => if !(t.value is ControlLine) && spanned_view(x) == spanned_view(t) {
                Some(p + 1)
            } else {
                None
            },
            TokenTree::Directive(cl) => if t.value is ControlLine && reads_as(inner, Ok(cl)) && (cl is DefineObject
                || cl is DefineFunction || cl is Error || cl is Warning || cl is Undefine) {
                Some(p + 1)
            } else {
                None
            },
            TokenTree::If { condition, body, opposition } => if t.value is ControlLine && reads_as(
                inner,
                Ok(ControlLine::If { condition }),
            ) {
                proof {
                    assert(decreases_to!(tree => body));
                    assert(decreases_to!(body => body@));
                }
                match closes_at(toks, trees_end(toks, p + 1, exp, body@)) {
                    Some(q) => opp_end(toks, q, *opposition),
                    None => None,
                }
            } else {
                None
            },
            TokenTree::IfDef { macro_name, body, opposition } => if t.value is ControlLine && reads_as(
                inner,
                Ok(ControlLine::IfDef { macro_name }),
            ) {
                proof {
                    assert(decreases_to!(tree => body));
                    assert(decreases_to!(body => body@));
                }
                match closes_at(toks, trees_end(toks, p + 1, exp, body@)) {
                    Some(q) => opp_end(toks, q, *opposition),
                    None => None,
                }
            } else {
                None
            },
            TokenTree::IfNDef { macro_name, body, opposition } => if t.value is ControlLine && reads_as(
                inner,
                Ok(ControlLine::IfNDef { macro_name }),
            ) {
                proof {
                    assert(decreases_to!(tree => body));
                    assert(decreases_to!(body => body@));
                }
                match closes_at(toks, trees_end(toks, p + 1, exp, body@)) {
                    Some(q) => opp_end(toks, q, *opposition),
                    None => None,
                }
            } else {
                None
            },
            TokenTree::Elif { condition, body, opposition } => if exp && t.value is ControlLine && reads_as(
                inner,
                Ok(ControlLine::Elif { condition }),
            ) {
                proof {
                    assert(decreases_to!(tree => body));
                    assert(decreases_to!(body => body@));
                }
                match closes_at(toks, trees_end(toks, p + 1, exp, body@)) {
                    Some(q) => opp_end(toks, q, *opposition),
                    None => None,
                }
            } else {
                None
            },
            TokenTree::Else { body, opposition } => if exp && t.value is ControlLine && reads_as(
                inner,
                Ok(ControlLine::Else),
            ) {
                proof {
                    assert(decreases_to!(tree => body));
                    assert(decreases_to!(body => body@));
                }
                match closes_at(toks, trees_end(toks, p + 1, exp, body@)) {
                    Some(q) => opp_end(toks, q, *opposition),
                    None => None,
                }
            } else {
                None
            },
            _ => None,
        }
    }
}

/// Where the trees of a group body end when they are what the tokens from `i` on group
/// into, none of them starting at a `#endif`, `#else` or `#elif`.
pub open spec fn trees_end(toks: Seq<Spanned<PreprocessingToken>>, i: int, exp: bool, trees: Seq<TokenTree>) -> Option<int>
    decreases trees, 0int,
{
    if trees.len() == 0 {
        Some(i)
    } else {
        let p = skip_empty(toks, i);
        if 0 <= p < toks.len() && is_closer(toks[p]) {
            None
        } else {
            match tree_end(toks, i, exp, trees[0]) {
                Some(m) => trees_end(toks, m, exp, trees.drop_first()),
                None => None,
            }
        }
    }
}

/// Where the opposition `tree` of a group ends when the group is closed at `q`: after the
/// `#endif`, or after the `#elif` or `#else` group that starts there.
pub open spec fn opp_end(toks: Seq<Spanned<PreprocessingToken>>, q: int, tree: TokenTree) -> Option<int>
    decreases tree, 2int,
{
    match tree {
        TokenTree::Endif => if 0 <= q < toks.len() && directive_name(toks[q]) == Some("endif"@) {
            Some(q + 1)
        } else {
            None
        },
        TokenTree::Elif { .. } => if 0 <= q < toks.len() && !is_empty_line(toks[q]) {
            tree_end(toks, q, true, tree)
        } else {
            None
        },
        TokenTree::Else { .. } => if 0 <= q < toks.len() && !is_empty_line(toks[q]) {
            tree_end(toks, q, true, tree)
        } else {
            None
        },
        _ => None,
    }
}

/// Where `trees` end when they are what the tokens of `toks` from `i` on group into, one
/// tree after the other.
pub open spec fn chain_end(toks: Seq<Spanned<PreprocessingToken>>, i: int, exp: bool, trees: Seq<TokenTree>) -> Option<int>
    decreases trees.len(),
{
    if trees.len() == 0 {
        Some(i)
    } else {
        match tree_end(toks, i, exp, trees[0]) {
            Some(m) => chain_end(toks, m, exp, trees.drop_first()),
            None => None,
        }
    }
}

/// Whether `trees` are what all the tokens of `toks` from `i` on group into.
pub open spec fn groups_into(toks: Seq<Spanned<PreprocessingToken>>, i: int, exp: bool, trees: Seq<TokenTree>) -> bool {
    chain_end(toks, i, exp, trees) matches Some(m) && skip_empty(toks, m) >= toks.len()
}

pub proof fn lemma_chain_end_push(toks: Seq<Spanned<PreprocessingToken>>, i: int, exp: bool, s: Seq<TokenTree>, t: TokenTree)
    ensures
        chain_end(toks, i, exp, s.push(t)) == match chain_end(toks, i, exp, s) {
            Some(m) => tree_end(toks, m, exp, t),
            None => None,
        },
    decreases s.len(),
{
    if s.len() == 0 {
        assert(s.push(t).drop_first() =~= Seq::<TokenTree>::empty());
        assert(s.push(t)[0] == t);
        match tree_end(toks, i, exp, t) {
            Some(m) => {
                assert(chain_end(toks, m, exp, Seq::<TokenTree>::empty()) == Some(m));
            },
            None => {},
        }
    } else {
        assert(s.push(t).drop_first() =~= s.drop_first().push(t));
        assert(s.push(t)[0] == s[0]);
        match tree_end(toks, i, exp, s[0]) {
            Some(m) => lemma_chain_end_push(toks, m, exp, s.drop_first(), t),
            None => {},
        }
    }
}

/// One more tree after a body: where it ends, when it does not start at a group's end.
pub open spec fn step_end(toks: Seq<Spanned<PreprocessingToken>>, m: int, exp: bool, t: TokenTree) -> Option<int> {
    let p = skip_empty(toks, m);
    if 0 <= p < toks.len() && is_closer(toks[p]) {
        None
    } else {
        tree_end(toks, m, exp, t)
    }
}

pub proof fn lemma_trees_end_push(toks: Seq<Spanned<PreprocessingToken>>, i: int, exp: bool, s: Seq<TokenTree>, t: TokenTree)
    ensures
        trees_end(toks, i, exp, s.push(t)) == match trees_end(toks, i, exp, s) {
            Some(m) => step_end(toks, m, exp, t),
            None => None,
        },
    decreases s.len(),
{
    if s.len() == 0 {
        assert(s.push(t).drop_first() =~= Seq::<TokenTree>::empty());
        assert(s.push(t)[0] == t);
        match tree_end(toks, i, exp, t) {
            Some(m) => {
                assert(trees_end(toks, m, exp, Seq::<TokenTree>::empty()) == Some(m));
            },
            None => {},
        }
    } else {
        assert(s.push(t).drop_first() =~= s.drop_first().push(t));
        assert(s.push(t)[0] == s[0]);
        match tree_end(toks, i, exp, s[0]) {
            Some(m) => lemma_trees_end_push(toks, m, exp, s.drop_first(), t),
            None => {},
        }
    }
}

/// A tree that follows a group body where an `#elif` or `#else` stands is that group.
pub proof fn lemma_opposition_tree(toks: Seq<Spanned<PreprocessingToken>>, q: int, cl: ControlLine, t: TokenTree)
    requires
        0 <= q < toks.len(),
        toks[q].value is ControlLine,
        reads_as(toks[q].value->ControlLine_0@, Ok(cl)),
        cl is Elif || cl is Else,
        tree_end(toks, q, true, t) is Some,
    ensures
        t is Elif || t is Else,
{
    lemma_directive_names();
}

/// The body of a conditional group tree.
pub open spec fn group_body(t: TokenTree) -> Seq<TokenTree> {
    match t {
        TokenTree::If { body, .. } => body@,
        TokenTree::IfDef { body, .. } => body@,
        TokenTree::IfNDef { body, .. } => body@,
        TokenTree::Elif { body, .. } => body@,
        TokenTree::Else { body, .. } => body@,
        _ => seq![],
    }
}

/// The opposition of a conditional group tree.
pub open spec fn group_opposition(t: TokenTree) -> TokenTree {
    match t {
        TokenTree::If { opposition, .. } => *opposition,
        TokenTree::IfDef { opposition, .. } => *opposition,
        TokenTree::IfNDef { opposition, .. } => *opposition,
        TokenTree::Elif { opposition, .. } => *opposition,
        TokenTree::Else { opposition, .. } => *opposition,
        _ => TokenTree::Endif,
    }
}

/// Tokens group into at most one tree from a given place: two trees that both fit end at
/// the same place.
pub proof fn lemma_tree_end_unique(
    toks: Seq<Spanned<PreprocessingToken>>,
    pos: int,
    exp: bool,
    t1: TokenTree,
    t2: TokenTree,
)
    requires
        tree_end(toks, pos, exp, t1) is Some,
        tree_end(toks, pos, exp, t2) is Some,
    ensures
        tree_end(toks, pos, exp, t1) == tree_end(toks, pos, exp, t2),
    decreases t1, 2int,
{
    lemma_directive_names();
    let p = skip_empty(toks, pos);
    if t1 is If || t1 is IfDef || t1 is IfNDef || t1 is Elif || t1 is Else {
        assert(t2 is If || t2 is IfDef || t2 is IfNDef || t2 is Elif || t2 is Else);
        match t1 {
            TokenTree::If { body, opposition, .. } => {
                assert(decreases_to!(t1 => body));
                assert(decreases_to!(body => body@));
                lemma_trees_end_unique(toks, p + 1, exp, body@, group_body(t2));
                let q = closes_at(toks, trees_end(toks, p + 1, exp, body@))->0;
                lemma_opp_end_unique(toks, q, *opposition, group_opposition(t2));
            },
            TokenTree::IfDef { body, opposition, .. } => {
                assert(decreases_to!(t1 => body));
                assert(decreases_to!(body => body@));
                lemma_trees_end_unique(toks, p + 1, exp, body@, group_body(t2));
                let q = closes_at(toks, trees_end(toks, p + 1, exp, body@))->0;
                lemma_opp_end_unique(toks, q, *opposition, group_opposition(t2));
            },
            TokenTree::IfNDef { body, opposition, .. } => {
                assert(decreases_to!(t1 => body));
                assert(decreases_to!(body => body@));
                lemma_trees_end_unique(toks, p + 1, exp, body@, group_body(t2));
                let q = closes_at(toks, trees_end(toks, p + 1, exp, body@))->0;
                lemma_opp_end_unique(toks, q, *opposition, group_opposition(t2));
            },
            TokenTree::Elif { body, opposition, .. } => {
                assert(decreases_to!(t1 => body));
                assert(decreases_to!(body => body@));
                lemma_trees_end_unique(toks, p + 1, exp, body@, group_body(t2));
                let q = closes_at(toks, trees_end(toks, p + 1, exp, body@))->0;
                lemma_opp_end_unique(toks, q, *opposition, group_opposition(t2));
            },
            TokenTree::Else { body, opposition } => {
                assert(decreases_to!(t1 => body));
                assert(decreases_to!(body => body@));
                lemma_trees_end_unique(toks, p + 1, exp, body@, group_body(t2));
                let q = closes_at(toks, trees_end(toks, p + 1, exp, body@))->0;
                lemma_opp_end_unique(toks, q, *opposition, group_opposition(t2));
            },
            _ => {},
        }
    }
}

/// Two group bodies that both fit from the same place are closed at the same place.
pub proof fn lemma_trees_end_unique(
    toks: Seq<Spanned<PreprocessingToken>>,
    i: int,
    exp: bool,
    b1: Seq<TokenTree>,
    b2: Seq<TokenTree>,
)
    requires
        closes_at(toks, trees_end(toks, i, exp, b1)) is Some,
        closes_at(toks, trees_end(toks, i, exp, b2)) is Some,
    ensures
        closes_at(toks, trees_end(toks, i, exp, b1)) == closes_at(toks, trees_end(toks, i, exp, b2)),
    decreases b1, 1int,
{
    if b1.len() > 0 && b2.len() > 0 {
        lemma_tree_end_unique(toks, i, exp, b1[0], b2[0]);
        let m = tree_end(toks, i, exp, b1[0])->0;
        lemma_trees_end_unique(toks, m, exp, b1.drop_first(), b2.drop_first());
    }
}

/// Two oppositions that both fit from the same place end at the same place.
pub proof fn lemma_opp_end_unique(toks: Seq<Spanned<PreprocessingToken>>, q: int, o1: TokenTree, o2: TokenTree)
    requires
        opp_end(toks, q, o1) is Some,
        opp_end(toks, q, o2) is Some,
    ensures
        opp_end(toks, q, o1) == opp_end(toks, q, o2),
    decreases o1, 3int,
{
    lemma_directive_names();
    if !(o1 is Endif) && !(o2 is Endif) {
        lemma_tree_end_unique(toks, q, true, o1, o2);
    }
}

/// A tree that fits where a conditional group's opening line stands is a group of that
/// kind, with a body and opposition that fit after it.
pub proof fn lemma_group_witness(toks: Seq<Spanned<PreprocessingToken>>, pos: int, exp: bool, w: TokenTree, cl: ControlLine)
    requires
        tree_end(toks, pos, exp, w) is Some,
        0 <= pos < toks.len(),
        skip_empty(toks, pos) == pos,
        toks[pos].value is ControlLine,
        reads_as(toks[pos].value->ControlLine_0@, Ok(cl)),
        cl is If || cl is IfDef || cl is IfNDef || cl is Elif || cl is Else,
    ensures
        closes_at(toks, trees_end(toks, pos + 1, exp, group_body(w))) matches Some(q) && opp_end(
            toks,
            q,
            group_opposition(w),
        ) is Some,
        (cl is Elif || cl is Else) ==> exp,
{
    lemma_directive_names();
}

/// What the line where an opposition fits reads as: `#endif`, `#elif` or `#else`.
pub proof fn lemma_opposition_line(toks: Seq<Spanned<PreprocessingToken>>, q: int, o: TokenTree, cl: ControlLine)
    requires
        opp_end(toks, q, o) is Some,
        0 <= q < toks.len(),
        toks[q].value is ControlLine,
        reads_as(toks[q].value->ControlLine_0@, Ok(cl)),
    ensures
        cl is EndIf || cl is Elif || cl is Else,
{
    lemma_directive_names();
    match o {
        TokenTree::Elif { .. } => {
            assert(tree_end(toks, q, true, o) is Some);
        },
        TokenTree::Else { .. } => {
            assert(tree_end(toks, q, true, o) is Some);
        },
        _ => {},
    }
}

/// What a line where a tree fits reads as: no `#endif`, and `#elif` or `#else` only where
/// they are allowed.
pub proof fn lemma_tree_line(toks: Seq<Spanned<PreprocessingToken>>, pos: int, exp: bool, t: TokenTree, cl: ControlLine)
    requires
        tree_end(toks, pos, exp, t) is Some,
        0 <= pos < toks.len(),
        skip_empty(toks, pos) == pos,
        toks[pos].value is ControlLine,
        reads_as(toks[pos].value->ControlLine_0@, Ok(cl)),
    ensures
        !(cl is EndIf),
        !(cl is Empty),
        (cl is Elif || cl is Else) ==> exp,
{
    lemma_directive_names();
}

/// A line that reads as nothing changes no tree that fits from it.
pub proof fn lemma_empty_line_skipped(toks: Seq<Spanned<PreprocessingToken>>, pos: int, exp: bool)
    requires
        0 <= pos < toks.len(),
        is_empty_line(toks[pos]),
    ensures
        forall|t: TokenTree| #[trigger] tree_end(toks, pos, exp, t) == tree_end(toks, pos + 1, exp, t),
{
    assert(skip_empty(toks, pos) == skip_empty(toks, pos + 1));
}

/// What the line at `i` of a group body that fits from `m` reads as: it reads, and unless
/// it closes the group or reads as nothing, a tree of the body starts there.
pub proof fn lemma_body_line(
    toks: Seq<Spanned<PreprocessingToken>>,
    i: int,
    exp: bool,
    m: int,
    ws: Seq<TokenTree>,
    r: PResult<ControlLine>,
)
    requires
        closes_at(toks, trees_end(toks, m, exp, ws)) is Some,
        skip_empty(toks, m) == skip_empty(toks, i),
        0 <= i < toks.len(),
        toks[i].value is ControlLine ==> reads_as(toks[i].value->ControlLine_0@, r),
    ensures
        toks[i].value is ControlLine ==> r is Ok,
        !(toks[i].value is ControlLine) ==> ws.len() > 0,
        toks[i].value is ControlLine && r is Ok && !(r->Ok_0 is EndIf || r->Ok_0 is Elif || r->Ok_0 is Else
            || r->Ok_0 is Empty) ==> ws.len() > 0,
{
    lemma_directive_names();
    if !is_empty_line(toks[i]) {
        assert(skip_empty(toks, i) == i);
        if ws.len() > 0 {
            assert(tree_end(toks, m, exp, ws[0]) is Some);
        }
    }
}

/// Past the last token, no group body fits.
pub proof fn lemma_body_end(toks: Seq<Spanned<PreprocessingToken>>, m: int, exp: bool, ws: Seq<TokenTree>)
    requires
        skip_empty(toks, m) >= toks.len(),
    ensures
        closes_at(toks, trees_end(toks, m, exp, ws)) is None,
{
    if ws.len() > 0 {
        assert(tree_end(toks, m, exp, ws[0]) is None);
    }
}

/// The names of the directives differ from one another.
pub proof fn lemma_directive_names()
    ensures
        "if"@.len() == 2,
        "else"@.len() == 4,
        "elif"@.len() == 4,
        "else"@[2] == 's',
        "elif"@[2] == 'i',
        "endif"@.len() == 5,
        "endif"@[0] == 'e',
        "endif"@[1] == 'n',
        "ifdef"@.len() == 5,
        "ifdef"@[0] == 'i',
        "undef"@.len() == 5,
        "undef"@[0] == 'u',
        "error"@.len() == 5,
        "error"@[0] == 'e',
        "error"@[1] == 'r',
        "ifndef"@.len() == 6,
        "ifndef"@[0] == 'i',
        "define"@.len() == 6,
        "define"@[0] == 'd',
        "pragma"@.len() == 6,
        "pragma"@[0] == 'p',
        "warning"@.len() == 7,
        "warning"@[0] == 'w',
        "version"@.len() == 7,
        "version"@[0] == 'v',
{
    reveal_strlit("if");
    reveal_strlit("else");
    reveal_strlit("elif");
    reveal_strlit("endif");
    reveal_strlit("ifdef");
    reveal_strlit("undef");
    reveal_strlit("error");
    reveal_strlit("ifndef");
    reveal_strlit("define");
    reveal_strlit("pragma");
    reveal_strlit("warning");
    reveal_strlit("version");
}

impl<'a> IntoTokenTree<'a> {
    pub fn new(file_id: usize, tokens: &'a [Spanned<PreprocessingToken>]) -> (r: Self)
        ensures
            r.file_id == file_id,
            r.tokens@ == tokens@,
            r.position == 0,
            !r.expecting_opposition,
    {
        IntoTokenTree { file_id, tokens, position: 0, expecting_opposition: false }
    }

    /// The next tree: a token leaf, a directive, or a conditional group with its body and
    /// opposition; `Ok(None)` when nothing but empty control lines is left.
    pub fn next(&mut self) -> (r: PResult<Option<TokenTree>>)
        requires
            old(self).position <= old(self).tokens@.len(),
        ensures
            final(self).tokens@ == old(self).tokens@,
            final(self).file_id == old(self).file_id,
            final(self).expecting_opposition == old(self).expecting_opposition,
            old(self).position <= final(self).position <= final(self).tokens@.len(),
            r matches Ok(Some(_)) ==> final(self).position > old(self).position,
            old(self).position == old(self).tokens@.len() ==> r matches Ok(None),
            old(self).position < old(self).tokens@.len() && !is_control_line(old(self).tokens@[old(self).position as int])
                ==> final(self).position == old(self).position + 1 && (r matches Ok(Some(tree)) && is_leaf_of(
                tree,
                old(self).tokens@[old(self).position as int],
            )),
            r matches Ok(Some(t)) ==> tree_end(
                old(self).tokens@,
                old(self).position as int,
                old(self).expecting_opposition,
                t,
            ) == Some(final(self).position as int),
            r matches Ok(None) ==> skip_empty(old(self).tokens@, old(self).position as int) >= old(self).tokens@.len(),
            skip_empty(old(self).tokens@, old(self).position as int) >= old(self).tokens@.len() ==> r matches Ok(None),
            forall|t: TokenTree|
                #[trigger] tree_end(old(self).tokens@, old(self).position as int, old(self).expecting_opposition, t) is Some
                    ==> r matches Ok(Some(_)),
            ({
                let toks = old(self).tokens@;
                let p = skip_empty(toks, old(self).position as int);
                0 <= p < toks.len() && (directive_name(toks[p]) == Some("endif"@) || (!old(self).expecting_opposition
                    && (directive_name(toks[p]) == Some("else"@) || directive_name(toks[p]) == Some("elif"@))))
            }) ==> r is Err,
        decreases old(self).tokens@.len() - old(self).position, 0int,
    {
        let ghost toks = self.tokens@;
        let ghost pos0 = self.position as int;
        let ghost exp0 = self.expecting_opposition;
        let ghost fits = exists|t: TokenTree| #[trigger] tree_end(toks, pos0, exp0, t) is Some;
        let ghost w = choose|t: TokenTree| #[trigger] tree_end(toks, pos0, exp0, t) is Some;
        if self.position >= self.tokens.len() {
            return Ok(None);
        }
        let token = &self.tokens[self.position];
        self.position = self.position + 1;
        match &token.value {
            PreprocessingToken::ControlLine(inner) => {
                proof {
                    lemma_directive_names();
                    if fits {
                        assert(tree_end(toks, pos0, exp0, w) is Some);
                    }
                }
                let control_line = parse_control_line(inner.as_slice(), self.file_id)?;
                proof {
                    if control_line is Empty {
                        lemma_empty_line_skipped(toks, pos0, exp0);
                    }
                    if fits && !(control_line is Empty) {
                        assert(skip_empty(toks, pos0) == pos0);
                        lemma_tree_line(toks, pos0, exp0, w, control_line);
                        if control_line is If || control_line is IfDef || control_line is IfNDef || control_line is Elif
                            || control_line is Else {
                            lemma_group_witness(toks, pos0, exp0, w, control_line);
                        }
                    }
                }
                match control_line {
                    ControlLine::DefineObject { .. }
                    | ControlLine::DefineFunction { .. }
                    | ControlLine::Error(..)
                    | ControlLine::Warning(..)
                    | ControlLine::Undefine(..)
                    | ControlLine::Include(..) => Ok(Some(TokenTree::Directive(control_line))),
                    ControlLine::If { condition } => {
                        let body = self.until_closer(token)?;
                        proof {
                            if fits {
                                lemma_trees_end_unique(toks, pos0 + 1, exp0, body@, group_body(w));
                            }
                        }
                        let opposition = Box::new(self.maybe_opposition()?);
                        Ok(Some(TokenTree::If { condition, body, opposition }))
                    },
                    ControlLine::IfDef { macro_name } => {
                        let body = self.until_closer(token)?;
                        proof {
                            if fits {
                                lemma_trees_end_unique(toks, pos0 + 1, exp0, body@, group_body(w));
                            }
                        }
                        let opposition = Box::new(self.maybe_opposition()?);
                        Ok(Some(TokenTree::IfDef { macro_name, body, opposition }))
                    },
                    ControlLine::IfNDef { macro_name } => {
                        let body = self.until_closer(token)?;
                        proof {
                            if fits {
                                lemma_trees_end_unique(toks, pos0 + 1, exp0, body@, group_body(w));
                            }
                        }
                        let opposition = Box::new(self.maybe_opposition()?);
                        Ok(Some(TokenTree::IfNDef { macro_name, body, opposition }))
                    },
                    ControlLine::Elif { condition } => {
                        if !self.expecting_opposition {
                            return Err(DanglingEndif(token.location.duplicate()).into_report());
                        }
                        let body = self.until_closer(token)?;
                        proof {
                            if fits {
                                lemma_trees_end_unique(toks, pos0 + 1, exp0, body@, group_body(w));
                            }
                        }
                        let opposition = Box::new(self.maybe_opposition()?);
                        Ok(Some(TokenTree::Elif { condition, body, opposition }))
                    },
                    ControlLine::Else => {
                        if !self.expecting_opposition {
                            return Err(DanglingEndif(token.location.duplicate()).into_report());
                        }
                        let body = self.until_closer(token)?;
                        proof {
                            if fits {
                                lemma_trees_end_unique(toks, pos0 + 1, exp0, body@, group_body(w));
                            }
                        }
                        let opposition = Box::new(self.maybe_opposition()?);
                        Ok(Some(TokenTree::Else { body, opposition }))
                    },
                    // Skip these two, they're inert
                    ControlLine::Empty => self.next(),
                    ControlLine::EndIf => Err(DanglingEndif(token.location.duplicate()).into_report()),
                }
            },
            _ => Ok(Some(TokenTree::PreprocessorToken(copy_token(token)))),
        }
    }

    /// The trees of a conditional group opened by `opener`, up to (not including) the
    /// `#elif`, `#else` or `#endif` that ends it; an error when the tokens run out first.
    pub fn until_closer(&mut self, opener: &Spanned<PreprocessingToken>) -> (r: PResult<Vec<TokenTree>>)
        requires
            old(self).position <= old(self).tokens@.len(),
        ensures
            final(self).tokens@ == old(self).tokens@,
            final(self).file_id == old(self).file_id,
            final(self).expecting_opposition == old(self).expecting_opposition,
            old(self).position <= final(self).position <= final(self).tokens@.len(),
            r is Ok ==> final(self).position < final(self).tokens@.len() && is_control_line(
                final(self).tokens@[final(self).position as int],
            ),
            r matches Ok(body) ==> closes_at(
                old(self).tokens@,
                trees_end(old(self).tokens@, old(self).position as int, old(self).expecting_opposition, body@),
            ) == Some(final(self).position as int),
            forall|b: Seq<TokenTree>|
                #[trigger] closes_at(
                    old(self).tokens@,
                    trees_end(old(self).tokens@, old(self).position as int, old(self).expecting_opposition, b),
                ) is Some ==> r is Ok,
            (forall|i: int| old(self).position <= i < old(self).tokens@.len() ==> !is_control_line(
                #[trigger] old(self).tokens@[i],
            )) ==> {
                &&& r matches Err(e)
                &&& r->Err_0.title@ == "Unterminated tree node"@
                &&& labels_view(r->Err_0.labels@) == seq![(LabelKind::Primary, opener.location, "No closer for this group"@)]
            },
        decreases old(self).tokens@.len() - old(self).position, 1int,
    {
        let ghost toks = self.tokens@;
        let ghost exp0 = self.expecting_opposition;
        let ghost plain = forall|i: int| self.position <= i < toks.len() ==> !is_control_line(#[trigger] toks[i]);
        let ghost fits = exists|b: Seq<TokenTree>| #[trigger] closes_at(toks, trees_end(toks, self.position as int, exp0, b)) is Some;
        let ghost w = choose|b: Seq<TokenTree>| #[trigger] closes_at(toks, trees_end(toks, self.position as int, exp0, b)) is Some;
        let mut body: Vec<TokenTree> = Vec::new();
        let ghost mut m: int = self.position as int;
        let ghost mut k: int = 0;
        proof {
            if fits {
                assert(w.skip(0) =~= w);
            }
        }
        while self.position < self.tokens.len()
            invariant
                self.tokens@ == old(self).tokens@,
                toks == old(self).tokens@,
                exp0 == old(self).expecting_opposition,
                self.file_id == old(self).file_id,
                self.expecting_opposition == old(self).expecting_opposition,
                old(self).position <= self.position <= self.tokens@.len(),
                trees_end(self.tokens@, old(self).position as int, self.expecting_opposition, body@) == Some(m),
                skip_empty(self.tokens@, m) == skip_empty(self.tokens@, self.position as int),
                fits == exists|b: Seq<TokenTree>| #[trigger] closes_at(
                    toks,
                    trees_end(toks, old(self).position as int, exp0, b),
                ) is Some,
                fits ==> 0 <= k <= w.len() && closes_at(toks, trees_end(toks, m, exp0, w.skip(k))) is Some,
                plain == forall|i: int| old(self).position <= i < toks.len() ==> !is_control_line(#[trigger] toks[i]),
            decreases self.tokens@.len() - self.position,
        {
            let token = &self.tokens[self.position];
            let ghost i = self.position as int;
            let ghost body0 = body@;
            let ghost ws = w.skip(k);
            proof {
                lemma_directive_names();
                if fits {
                    assert(closes_at(toks, trees_end(toks, m, exp0, ws)) is Some);
                    if ws.len() > 0 {
                        assert(tree_end(toks, m, exp0, ws[0]) is Some);
                        assert(tree_end(toks, i, exp0, ws[0]) == tree_end(toks, m, exp0, ws[0]));
                        assert(ws.drop_first() =~= w.skip(k + 1));
                    }
                }
            }
            match &token.value {
                PreprocessingToken::ControlLine(control_line) => {
                    let inner = parse_control_line(control_line.as_slice(), self.file_id);
                    proof {
                        if fits {
                            lemma_body_line(toks, i, exp0, m, ws, inner);
                        }
                    }
                    let inner = inner?;
                    proof {
                        lemma_directive_names();
                    }
                    match inner {
                        ControlLine::EndIf | ControlLine::Elif { .. } | ControlLine::Else => {
                            return Ok(body);
                        },
                        ControlLine::Empty => {
                            self.position = self.position + 1;
                        },
                        _ => {
                            match self.next()? {
                                Some(t) => {
                                    proof {
                                        lemma_trees_end_push(self.tokens@, old(self).position as int, self.expecting_opposition, body0, t);
                                        if fits {
                                            lemma_tree_end_unique(toks, i, exp0, t, ws[0]);
                                            k = k + 1;
                                        }
                                        m = self.position as int;
                                    }
                                    body.push(t);
                                },
                                None => {
                                    return Err(UnterminatedTreeNode { opening_token: opener.location.duplicate() }.into_report());
                                },
                            }
                        },
                    }
                },
                _ => {
                    proof {
                        if fits {
                            lemma_body_line(toks, i, exp0, m, ws, arbitrary());
                        }
                    }
                    match self.next()? {
                        Some(t) => {
                            proof {
                                lemma_trees_end_push(self.tokens@, old(self).position as int, self.expecting_opposition, body0, t);
                                if fits {
                                    lemma_tree_end_unique(toks, i, exp0, t, ws[0]);
                                    k = k + 1;
                                }
                                m = self.position as int;
                            }
                            body.push(t);
                        },
                        None => {
                            return Err(UnterminatedTreeNode { opening_token: opener.location.duplicate() }.into_report());
                        },
                    }
                },
            }
        }
        proof {
            if fits {
                lemma_body_end(toks, m, exp0, w.skip(k));
            }
        }
        Err(UnterminatedTreeNode { opening_token: opener.location.duplicate() }.into_report())
    }

    /// The `#elif` or `#else` group, or `Endif`, that follows a group body.
    pub fn maybe_opposition(&mut self) -> (r: PResult<TokenTree>)
        requires
            old(self).position <= old(self).tokens@.len(),
        ensures
            final(self).tokens@ == old(self).tokens@,
            final(self).file_id == old(self).file_id,
            final(self).expecting_opposition == old(self).expecting_opposition,
            old(self).position <= final(self).position <= final(self).tokens@.len(),
            r matches Ok(t) ==> opp_end(old(self).tokens@, old(self).position as int, t) == Some(
                final(self).position as int,
            ),
            forall|o: TokenTree| #[trigger] opp_end(old(self).tokens@, old(self).position as int, o) is Some ==> r is Ok,
            old(self).position < old(self).tokens@.len() && !is_control_line(
                old(self).tokens@[old(self).position as int],
            ) ==> error_at(
                r,
                old(self).tokens@[old(self).position as int].location,
                "expected #elif, #else or #endif"@,
            ),
            old(self).position == old(self).tokens@.len() ==> (r matches Err(e) && e.labels@.len() == 1
                && e.labels@[0].message@ == "expected #elif, #else or #endif"@),
        decreases old(self).tokens@.len() - old(self).position, 1int,
    {
        let ghost toks = self.tokens@;
        let ghost fits = exists|o: TokenTree| #[trigger] opp_end(toks, self.position as int, o) is Some;
        let ghost w = choose|o: TokenTree| #[trigger] opp_end(toks, self.position as int, o) is Some;
        proof {
            lemma_directive_names();
            if fits {
                assert(opp_end(toks, self.position as int, w) is Some);
                if !(w is Endif) {
                    assert(tree_end(toks, self.position as int, true, w) is Some);
                }
            }
        }
        if self.position >= self.tokens.len() {
            proof {
                assert(!fits);
            }
            return Err(simple_error(&Location::new(), "expected #elif, #else or #endif"));
        }
        let token = &self.tokens[self.position];
        match &token.value {
            PreprocessingToken::ControlLine(control_line) => {
                let control_line = parse_control_line(control_line.as_slice(), self.file_id)?;
                proof {
                    lemma_directive_names();
                }
                match control_line {
                    ControlLine::Elif { .. } | ControlLine::Else => {
                        let ghost q = self.position as int;
                        let ghost cl = control_line;
                        let saved = self.expecting_opposition;
                        self.expecting_opposition = true;
                        let tree = self.next();
                        self.expecting_opposition = saved;
                        match tree? {
                            Some(t) => {
                                proof {
                                    lemma_opposition_tree(self.tokens@, q, cl, t);
                                }
                                Ok(t)
                            },
                            None => {
                                proof {
                                    assert(!fits);
                                }
                                Err(simple_error(&token.location, "expected #elif, #else or #endif"))
                            },
                        }
                    },
                    ControlLine::EndIf => {
                        self.position = self.position + 1;
                        Ok(TokenTree::Endif)
                    },
                    _ => {
                        proof {
                            if fits {
                                lemma_opposition_line(toks, self.position as int, w, control_line);
                            }
                        }
                        Err(simple_error(&token.location, "expected #elif, #else or #endif"))
                    },
                }
            },
            _ => {
                proof {
                    assert(!fits);
                }
                Err(simple_error(&token.location, "expected #elif, #else or #endif"))
            },
        }
    }

    /// Every tree that is left, in order.
    pub fn collect_trees(&mut self) -> (r: PResult<Vec<TokenTree>>)
        requires
            old(self).position <= old(self).tokens@.len(),
        ensures
            r matches Ok(v) ==> groups_into(old(self).tokens@, old(self).position as int, old(self).expecting_opposition, v@),
            forall|v: Seq<TokenTree>|
                #[trigger] groups_into(old(self).tokens@, old(self).position as int, old(self).expecting_opposition, v)
                    ==> r is Ok,
            (forall|i: int| old(self).position <= i < old(self).tokens@.len() ==> !is_control_line(#[trigger] old(self).tokens@[i]))
                ==> (r matches Ok(v) && v@.len() == old(self).tokens@.len() - old(self).position && (forall|i: int|
                0 <= i < v@.len() ==> is_leaf_of(#[trigger] v@[i], old(self).tokens@[old(self).position + i]))),
    {
        let ghost p0 = self.position;
        let ghost toks = self.tokens@;
        let ghost exp0 = self.expecting_opposition;
        let ghost fits = exists|v: Seq<TokenTree>| #[trigger] groups_into(toks, p0 as int, exp0, v);
        let ghost w = choose|v: Seq<TokenTree>| #[trigger] groups_into(toks, p0 as int, exp0, v);
        let ghost mut k: int = 0;
        proof {
            if fits {
                assert(w.skip(0) =~= w);
            }
        }
        let mut out: Vec<TokenTree> = Vec::new();
        loop
            invariant
                toks == old(self).tokens@,
                exp0 == old(self).expecting_opposition,
                self.expecting_opposition == exp0,
                fits == exists|v: Seq<TokenTree>| #[trigger] groups_into(toks, p0 as int, exp0, v),
                fits ==> 0 <= k <= w.len() && groups_into(toks, self.position as int, exp0, w.skip(k)),
                self.tokens@ == old(self).tokens@,
                p0 == old(self).position,
                p0 <= self.position <= self.tokens@.len(),
                (forall|i: int| p0 <= i < self.tokens@.len() ==> !is_control_line(#[trigger] self.tokens@[i])) ==> {
                    &&& out@.len() == self.position - p0
                    &&& forall|i: int| 0 <= i < out@.len() ==> is_leaf_of(#[trigger] out@[i], self.tokens@[p0 + i])
                },
                self.expecting_opposition == old(self).expecting_opposition,
                chain_end(self.tokens@, p0 as int, self.expecting_opposition, out@) == Some(self.position as int),
            decreases self.tokens@.len() - self.position,
        {
            let ghost out0 = out@;
            let ghost i = self.position as int;
            let ghost ws = w.skip(k);
            proof {
                if fits && ws.len() > 0 {
                    assert(tree_end(toks, i, exp0, ws[0]) is Some);
                    assert(ws.drop_first() =~= w.skip(k + 1));
                }
            }
            match self.next()? {
                Some(t) => {
                    proof {
                        lemma_chain_end_push(self.tokens@, p0 as int, self.expecting_opposition, out0, t);
                        if fits {
                            lemma_tree_end_unique(toks, i, exp0, t, ws[0]);
                            k = k + 1;
                        }
                    }
                    out.push(t);
                },
                None => {
                    return Ok(out);
                },
            }
        }
    }
}

} // verus!

//! A C preprocessor: character translation, tokenization, conditional-inclusion
//! trees, macro expansion and `#if` expression evaluation.
use vstd::prelude::*;

pub mod ast;
pub mod consteval;
pub mod errors;
pub mod expand;
pub mod expr;
pub mod invocation;
pub mod lexer;
pub mod macros;
pub mod parser;
pub mod peek;
pub mod prelexer;
pub mod prepend;
pub mod rescan;
pub mod spanned;
pub mod stmt;
pub mod strings;
pub mod substitute;
pub mod tree;
pub mod ty;

use crate::ast::{
    lemma_rendered_all_add, lemma_tokens_view, lemma_tokens_view_push, rendered, rendered_all, spanned_view,
    token_view, tokens_view, PreprocessingToken, TokenView, Whitespace,
};
use crate::errors::{simple_error, PResult, Report};
use crate::expand::{leaf_tokens, Expander, MacroDefinition, MacroTable, MacroView};
use crate::lexer::{all_tokens, lemma_lex_simple_len, lex, lex_simple, line_start_after, simple_tokens, starts_comment, starts_control_line};
use crate::macros::{string_views, MacroParameterList};
use crate::prelexer::{prelex_spec, str_chars};
use crate::prepend::PrependingPeekableIterator;
use crate::rescan::{lemma_leaf_queue, lemma_plain_without_macros, plain_need, plain_ok, plain_out, queue_need, queue_ok, queue_out};
use crate::spanned::{Location, Spanned};
use crate::strings::{push_char, push_str};
use crate::tree::{groups_into, is_control_line, is_leaf_of, IntoTokenTree, TokenTree};

verus! {

/// The tokens that `simple_tokens` reads are plain: no delimited group, no control line.
pub proof fn lemma_simple_tokens_flat(cs: Seq<Spanned<char>>, at_start_of_line: bool, file_id: usize)
    ensures
        simple_tokens(cs, at_start_of_line, file_id) matches Some(ts) ==> forall|i: int|
            0 <= i < ts.len() ==> !((#[trigger] ts[i]).value is Delimited) && !(ts[i].value is ControlLine),
    decreases cs.len(),
{
    if cs.len() > 0 && !(starts_comment(cs) || starts_control_line(cs, at_start_of_line)) {
        match lex_simple(cs, file_id) {
            Some((t, k)) => {
                lemma_lex_simple_len(cs, file_id);
                if k >= 1 && k <= cs.len() {
                    let next = line_start_after(cs[0].value, at_start_of_line);
                    lemma_simple_tokens_flat(cs.skip(k as int), next, file_id);
                    match simple_tokens(cs.skip(k as int), next, file_id) {
                        Some(ts) => {
                            assert forall|i: int| 0 <= i < ts.len() + 1 implies !((#[trigger] (seq![t] + ts)[i]).value is Delimited)
                                && !((seq![t] + ts)[i].value is ControlLine) by {
                                if i > 0 {
                                    assert((seq![t] + ts)[i] == ts[i - 1]);
                                }
                            }
                        },
                        None => {},
                    }
                }
            },
            None => {},
        }
    }
}

/// Writing out a sequence with one more token writes that token last.
proof fn lemma_rendered_all_push(s: Seq<Spanned<TokenView>>, t: Spanned<TokenView>)
    ensures
        rendered_all(s.push(t)) == rendered_all(s) + rendered(t.value),
{
    lemma_rendered_all_add(s, seq![t]);
    assert(s + seq![t] =~= s.push(t));
    assert(seq![t].drop_first() =~= Seq::<Spanned<TokenView>>::empty());
    assert(rendered_all(Seq::<Spanned<TokenView>>::empty()) == Seq::<char>::empty());
    assert(rendered_all(seq![t]) == rendered(t.value) + rendered_all(seq![t].drop_first()));
    assert(rendered_all(seq![t]) =~= rendered(t.value));
}

/// Appends how one token is written out to `w`.
pub fn write_token(source: &str, spanned_token: &Spanned<PreprocessingToken>, w: &mut String)
    ensures
        final(w)@ == old(w)@ + rendered(token_view(spanned_token.value)),
    decreases spanned_token, 0int,
{
    match &spanned_token.value {
        PreprocessingToken::Identifier(identifier) => {
            push_str(w, identifier.as_str());
        },
        PreprocessingToken::BlueIdentifier(identifier) => {
            push_str(w, identifier.as_str());
        },
        PreprocessingToken::StringLiteral(string) => {
            push_char(w, '"');
            push_str(w, string.as_str());
            push_char(w, '"');
            assert(final(w)@ =~= old(w)@ + (seq!['"'] + string@ + seq!['"']));
        },
        PreprocessingToken::CharLiteral(chars) => {
            push_char(w, '\'');
            push_str(w, chars.as_str());
            push_char(w, '\'');
            assert(final(w)@ =~= old(w)@ + (seq!['\''] + chars@ + seq!['\'']));
        },
        PreprocessingToken::PPNumber(number) => {
            push_str(w, number.as_str());
        },
        PreprocessingToken::Delimited(d) => {
            let ghost w0 = w@;
            write_token(source, &d.opener, w);
            let ghost w1 = w@;
            write_tokens(source, &d.inner_tokens, w);
            let ghost w2 = w@;
            write_token(source, &d.closer, w);
            assert(w@ =~= w0 + (rendered(token_view(d.opener.value)) + rendered_all(tokens_view(d.inner_tokens@))
                + rendered(token_view(d.closer.value))));
        },
        PreprocessingToken::ControlLine(inner) => {
            let ghost w0 = w@;
            push_char(w, '#');
            write_tokens(source, inner, w);
            assert(w@ =~= w0 + (seq!['#'] + rendered_all(tokens_view(inner@))));
        },
        PreprocessingToken::Whitespace(whitespace) => match whitespace {
            Whitespace::Space => push_char(w, ' '),
            Whitespace::Newline => push_char(w, '\n'),
            Whitespace::Tab => push_char(w, '\t'),
        },
        PreprocessingToken::Punctuator(punctuator) => {
            let spelling = punctuator.to_string();
            push_str(w, spelling.as_str());
        },
    }
}

/// Appends how the tokens of `tokens` are written out to `w`, one after the other: names
/// and numbers as they are spelled, literals in their quotes, punctuators by their spelling,
/// whitespace as itself, a delimited group as its opener, inner tokens and closer, and a
/// control line after `#`.
pub fn write_tokens(source: &str, tokens: &Vec<Spanned<PreprocessingToken>>, w: &mut String)
    ensures
        final(w)@ == old(w)@ + rendered_all(tokens_view(tokens@)),
    decreases tokens, 1int,
{
    let mut i: usize = 0;
    assert(tokens@.take(0) =~= Seq::<Spanned<PreprocessingToken>>::empty());
    while i < tokens.len()
        invariant
            i <= tokens@.len(),
            w@ == old(w)@ + rendered_all(tokens_view(tokens@.take(i as int))),
        decreases tokens@.len() - i,
    {
        assert(decreases_to!(tokens => tokens@[i as int]));
        proof {
            assert(tokens@.take(i + 1) =~= tokens@.take(i as int).push(tokens@[i as int]));
            lemma_tokens_view_push(tokens@.take(i as int), tokens@[i as int]);
            lemma_rendered_all_push(tokens_view(tokens@.take(i as int)), spanned_view(tokens@[i as int]));
        }
        write_token(source, &tokens[i], w);
        assert(w@ =~= old(w)@ + rendered_all(tokens_view(tokens@.take(i + 1))));
        i += 1;
    }
    assert(tokens@.take(i as int) =~= tokens@);
}

/// The token trees of a sequence of tokens.
pub struct Preprocessor {
    pub token_trees: Vec<TokenTree>,
}

impl Preprocessor {
    /// Groups `tokens` into trees; an error when a conditional group is malformed.
    pub fn new(file_id: usize, tokens: &[Spanned<PreprocessingToken>]) -> (r: PResult<Preprocessor>)
        ensures
            r matches Ok(p) ==> groups_into(tokens@, 0, false, p.token_trees@),
            forall|v: Seq<TokenTree>| #[trigger] groups_into(tokens@, 0, false, v) ==> r is Ok,
            (forall|i: int| 0 <= i < tokens@.len() ==> !is_control_line(#[trigger] tokens@[i])) ==> (r matches Ok(
                p,
            ) && p.token_trees@.len() == tokens@.len() && (forall|i: int|
                0 <= i < tokens@.len() ==> is_leaf_of(#[trigger] p.token_trees@[i], tokens@[i]))),
    {
        let mut itt = IntoTokenTree::new(file_id, tokens);
        let token_trees = itt.collect_trees()?;
        Ok(Preprocessor { token_trees })
    }
}

/// A macro given to `preprocess_str`: an object-like macro's replacement text, or a
/// function-like macro's parameter names and replacement text.
pub enum MacroD<'a> {
    Simple(&'a str),
    Complex(Vec<&'a str>, &'a str),
}

/// The definition of an object-like macro whose replacement list is the tokens of `input`;
/// an error when the text does not lex or is too long to lex.
pub fn process_macro(input: &str) -> (r: PResult<MacroDefinition>)
    ensures
        r matches Ok(d) ==> d is Object,
        4 * input@.len() <= usize::MAX ==> (simple_tokens(prelex_spec(input@, 0, 0), true, 0) matches Some(ts) ==> (r matches Ok(
            MacroDefinition::Object(v),
        ) && tokens_view(v@) == ts)),
{
    let chars = str_chars(input);
    if chars.len() > usize::MAX / 4 {
        return Err(simple_error(&Location::new(), "macro text is too long"));
    }
    let tokens = lex(0, input)?;
    Ok(MacroDefinition::Object(tokens))
}

/// The definition of a function-like macro with parameters `params` whose replacement
/// list is the tokens of `input`; an error when the text does not lex or is too long to lex.
pub fn process_complex_macro(params: &[&str], input: &str) -> (r: PResult<MacroDefinition>)
    ensures
        r matches Ok(d) ==> ({
            &&& d is Function
            &&& d->parameter_list.parameters@.len() == params@.len()
            &&& forall|i: int| 0 <= i < params@.len() ==> #[trigger] d->parameter_list.parameters@[i]@ == params@[i]@
            &&& !d->parameter_list.variadic
        }),
        4 * input@.len() <= usize::MAX ==> (simple_tokens(prelex_spec(input@, 0, 0), true, 0) matches Some(ts) ==> (r matches Ok(
            MacroDefinition::Function { replacement_list: v, .. },
        ) && tokens_view(v@) == ts)),
{
    let chars = str_chars(input);
    if chars.len() > usize::MAX / 4 {
        return Err(simple_error(&Location::new(), "macro text is too long"));
    }
    let tokens = lex(0, input)?;
    let mut parameters: Vec<String> = Vec::new();
    let mut i: usize = 0;
    while i < params.len()
        invariant
            i <= params@.len(),
            parameters@.len() == i,
            forall|j: int| 0 <= j < i ==> #[trigger] parameters@[j]@ == params@[j]@,
        decreases params@.len() - i,
    {
        parameters.push(String::from_str(params[i]));
        i += 1;
    }
    Ok(
        MacroDefinition::Function {
            parameter_list: MacroParameterList { parameters, variadic: false },
            replacement_list: tokens,
        },
    )
}

/// The definition that a macro given to `preprocess_str` stands for, when its text lexes
/// into plain tokens.
pub open spec fn caller_macro(d: MacroD) -> Option<MacroView> {
    let text = match d {
        MacroD::Simple(s) => s@,
        MacroD::Complex(_, s) => s@,
    };
    if 4 * text.len() <= usize::MAX {
        match simple_tokens(prelex_spec(text, 0, 0), true, 0) {
            Some(ts) => match d {
                MacroD::Simple(_) => Some(MacroView::Object(ts)),
                MacroD::Complex(p, _) => Some(MacroView::Function(p@.map_values(|x: &str| x@), false, ts)),
            },
            None => None,
        }
    } else {
        None
    }
}

/// The macro table that the macros given to `preprocess_str` make, a later one of a name
/// replacing an earlier one; `None` when the text of one of them does not lex into plain
/// tokens.
pub open spec fn caller_macros(ms: Seq<(String, MacroD)>) -> Option<Map<Seq<char>, MacroView>>
    decreases ms.len(),
{
    if ms.len() == 0 {
        Some(Map::empty())
    } else {
        match (caller_macros(ms.drop_last()), caller_macro(ms.last().1)) {
            (Some(m), Some(d)) => Some(m.insert(ms.last().0@, d)),
            _ => None,
        }
    }
}

/// Translation gives no more characters than the text has.
pub proof fn lemma_prelex_len(s: Seq<char>, pos: nat, file_id: usize)
    ensures
        prelex_spec(s, pos, file_id).len() <= s.len(),
    decreases s.len(),
{
    if s.len() > 0 {
        let (c, k) = crate::prelexer::translate_head(s);
        assert(1 <= k <= s.len());
        let len = crate::prelexer::utf8_bytes(s.take(k as int));
        if crate::prelexer::splices(s) {
            lemma_prelex_len(s.skip(k + 1int), pos + len + 1, file_id);
        } else {
            lemma_prelex_len(s.skip(k as int), pos + len, file_id);
        }
    }
}

/// Every token takes at least one character.
pub proof fn lemma_simple_tokens_len(cs: Seq<Spanned<char>>, at_start_of_line: bool, file_id: usize)
    ensures
        simple_tokens(cs, at_start_of_line, file_id) matches Some(ts) ==> ts.len() <= cs.len(),
    decreases cs.len(),
{
    if cs.len() > 0 && !(starts_comment(cs) || starts_control_line(cs, at_start_of_line)) {
        match lex_simple(cs, file_id) {
            Some((t, k)) => {
                lemma_lex_simple_len(cs, file_id);
                if k >= 1 && k <= cs.len() {
                    lemma_simple_tokens_len(cs.skip(k as int), line_start_after(cs[0].value, at_start_of_line), file_id);
                }
            },
            None => {},
        }
    }
}

/// Where the macros given to `preprocess_str` all read, so do the first of them.
pub proof fn lemma_caller_macros_prefix(ms: Seq<(String, MacroD)>, n: int)
    requires
        0 <= n <= ms.len(),
        caller_macros(ms) is Some,
    ensures
        caller_macros(ms.take(n)) is Some,
    decreases ms.len(),
{
    if n < ms.len() {
        assert(ms.drop_last().take(n) =~= ms.take(n));
        lemma_caller_macros_prefix(ms.drop_last(), n);
    } else {
        assert(ms.take(n) =~= ms);
    }
}

/// What preprocessing gives for tokens `toks` (lexed from the text) with the caller's macros
/// `macros`: where they group into no trees, an error; where they group into `trees` that
/// expand plainly (see `queue_ok`) within the step limit, the text that writes out what the
/// trees come out as.
pub open spec fn pipeline_outcome(
    toks: Seq<Spanned<PreprocessingToken>>,
    trees: Option<Seq<TokenTree>>,
    macros: Map<Seq<char>, MacroView>,
    r: PResult<String>,
) -> bool {
    match trees {
        None => (forall|v: Seq<TokenTree>| !#[trigger] groups_into(toks, 0, false, v)) && r is Err,
        Some(trees) => {
            &&& groups_into(toks, 0, false, trees)
            &&& queue_ok(trees, macros, Set::<Seq<char>>::empty(), false, 0) && queue_need(
                trees,
                macros,
                Set::<Seq<char>>::empty(),
                false,
                0,
            ) <= u64::MAX ==> (r matches Ok(s) && s@ == rendered_all(
                queue_out(trees, macros, Set::<Seq<char>>::empty(), false, 0),
            ))
        },
    }
}

/// Preprocesses `input` with the given macros defined: tokenizes it, resolves its
/// conditional groups and directives, expands its macros and writes the result out.
/// Text whose characters form only plain tokens (no comment, no directive), where each
/// identifier either names no macro or names an object-like macro whose replacement
/// expands the same way in turn, comes out as its tokens write it with each such macro
/// name replaced by what the macro's replacement expands to; without macros, that is the
/// text's own tokens.
pub fn preprocess_str(input: &str, macros: &[(String, MacroD)]) -> (r: PResult<String>)
    ensures
        macros@.len() == 0 && 4 * input@.len() <= usize::MAX ==> (simple_tokens(prelex_spec(input@, 0, 0), true, 0) matches Some(
            ts,
        ) ==> (r matches Ok(s) && s@ == rendered_all(ts))),
        ({
            &&& 4 * input@.len() <= usize::MAX
            &&& simple_tokens(prelex_spec(input@, 0, 0), true, 0) is Some
            &&& caller_macros(macros@) is Some
            &&& plain_ok(simple_tokens(prelex_spec(input@, 0, 0), true, 0)->0, caller_macros(macros@)->0, Set::<Seq<char>>::empty(), false, 0)
            &&& plain_need(simple_tokens(prelex_spec(input@, 0, 0), true, 0)->0, caller_macros(macros@)->0, Set::<Seq<char>>::empty(), false, 0)
                <= u64::MAX
        }) ==> (r matches Ok(s) && s@ == rendered_all(
            plain_out(simple_tokens(prelex_spec(input@, 0, 0), true, 0)->0, caller_macros(macros@)->0, Set::<Seq<char>>::empty(), false, 0),
        )),
        4 * input@.len() <= usize::MAX && caller_macros(macros@) is Some ==> match all_tokens(
            prelex_spec(input@, 0, 0),
            true,
            0,
        ) {
            None => r is Err,
            Some(ts) => exists|toks: Seq<Spanned<PreprocessingToken>>, trees: Option<Seq<TokenTree>>|
                tokens_view(toks) == ts && #[trigger] pipeline_outcome(toks, trees, caller_macros(macros@)->0, r),
        },
{
    let chars = str_chars(input);
    if chars.len() > usize::MAX / 4 {
        return Err(simple_error(&Location::new(), "input is too long"));
    }
    let tokens = lex(0, input)?;
    let ghost tv = tokens@;
    proof {
        lemma_simple_tokens_flat(prelex_spec(input@, 0, 0), true, 0);
        lemma_tokens_view(tv);
        if simple_tokens(prelex_spec(input@, 0, 0), true, 0) is Some {
            let ts = simple_tokens(prelex_spec(input@, 0, 0), true, 0)->0;
            assert forall|i: int| 0 <= i < tv.len() implies !is_control_line(#[trigger] tv[i]) by {
                assert(tokens_view(tv)[i] == spanned_view(tv[i]));
                assert(ts[i] == spanned_view(tv[i]));
            }
        }
    }
    let preprocessor = match Preprocessor::new(0, tokens.as_slice()) {
        Ok(p) => p,
        Err(e) => {
            proof {
                if caller_macros(macros@) is Some {
                    assert(pipeline_outcome(tv, None, caller_macros(macros@)->0, Err::<String, Report>(e)));
                }
            }
            return Err(e);
        },
    };
    let mut table = MacroTable::new();
    let mut i: usize = 0;
    while i < macros.len()
        invariant
            i <= macros@.len(),
            macros@.len() == 0 ==> table@ == Map::<Seq<char>, MacroView>::empty(),
            caller_macros(macros@) is Some ==> caller_macros(macros@.take(i as int)) == Some(table@),
        decreases macros@.len() - i,
    {
        proof {
            if caller_macros(macros@) is Some {
                lemma_caller_macros_prefix(macros@, i as int + 1);
            }
            assert(macros@.take(i + 1).drop_last() =~= macros@.take(i as int));
            assert(macros@.take(i + 1).last() == macros@[i as int]);
        }
        let (name, definition) = &macros[i];
        let processed = match definition {
            MacroD::Simple(s) => process_macro(s)?,
            MacroD::Complex(p, s) => {
                let d = process_complex_macro(p.as_slice(), s)?;
                proof {
                    if d is Function {
                        assert(string_views(d->parameter_list.parameters@) =~= p@.map_values(|x: &str| x@));
                    }
                }
                d
            },
        };
        table.insert(name.clone(), processed);
        i += 1;
    }
    proof {
        assert(macros@.take(macros@.len() as int) =~= macros@);
    }
    let ghost trees = preprocessor.token_trees@;
    proof {
        if macros@.len() == 0 && simple_tokens(prelex_spec(input@, 0, 0), true, 0) is Some {
            let ts = simple_tokens(prelex_spec(input@, 0, 0), true, 0)->0;
            lemma_plain_without_macros(ts, 0);
            lemma_prelex_len(input@, 0, 0);
            lemma_simple_tokens_len(prelex_spec(input@, 0, 0), true, 0);
            assert(caller_macros(macros@) == Some(Map::<Seq<char>, MacroView>::empty()));
            assert(plain_need(ts, Map::<Seq<char>, MacroView>::empty(), Set::<Seq<char>>::empty(), false, 0) <= u64::MAX);
        }
    }
    proof {
        if simple_tokens(prelex_spec(input@, 0, 0), true, 0) is Some && caller_macros(macros@) is Some {
            let ts = simple_tokens(prelex_spec(input@, 0, 0), true, 0)->0;
            assert forall|i: int| 0 <= i < trees.len() implies (#[trigger] trees[i]) is PreprocessorToken by {
                assert(is_leaf_of(trees[i], tv[i]));
            }
            lemma_tokens_view(leaf_tokens(trees));
            assert forall|i: int| 0 <= i < trees.len() implies #[trigger] tokens_view(leaf_tokens(trees))[i] == ts[i] by {
                assert(is_leaf_of(trees[i], tv[i]));
                assert(tokens_view(tv)[i] == spanned_view(tv[i]));
            }
            assert(tokens_view(leaf_tokens(trees)) =~= ts);
            if plain_ok(ts, table@, Set::<Seq<char>>::empty(), false, 0) {
                lemma_leaf_queue(trees, table@, Set::<Seq<char>>::empty(), false, 0);
            }
        }
    }
    let mut expander = Expander::new(0, PrependingPeekableIterator::new(preprocessor.token_trees), table);
    match expander.expand() {
        Ok(()) => {},
        Err(e) => {
            proof {
                if caller_macros(macros@) is Some {
                    assert(pipeline_outcome(tv, Some(trees), caller_macros(macros@)->0, Err::<String, Report>(e)));
                }
            }
            return Err(e);
        },
    }
    let mut out = String::new();
    write_tokens(input, &expander.output, &mut out);
    proof {
        lemma_tokens_view(Seq::<Spanned<PreprocessingToken>>::empty());
        assert(tokens_view(Seq::<Spanned<PreprocessingToken>>::empty()) + queue_out(
            trees,
            table@,
            Set::<Seq<char>>::empty(),
            false,
            0,
        ) =~= queue_out(trees, table@, Set::<Seq<char>>::empty(), false, 0));
        if caller_macros(macros@) is Some {
            assert(pipeline_outcome(tv, Some(trees), caller_macros(macros@)->0, Ok::<String, Report>(out)));
        }
    }
    Ok(out)
}

} // verus!

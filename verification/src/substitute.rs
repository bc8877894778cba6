//! Substitution of macro arguments into a replacement list, with `#` and `##`.
use crate::ast::{
    any_control_line, copy_token, copy_tokens, has_control_line, lemma_rendered_all_add, lemma_tokens_view,
    lemma_tokens_view_add, lemma_tokens_view_push, rendered, rendered_all, spanned_view, token_view, tokens_have_control_line, tokens_view, PreprocessingToken, Punctuator, TokenView, Whitespace,
};
use crate::errors::{simple_error, PResult};
use crate::expr::empty_location;
use crate::expand::relocated;
use crate::lexer::{lex, simple_tokens};
use crate::prelexer::{prelex_spec, str_chars};
use crate::prepend::PrependingPeekableIterator;
use crate::spanned::{Location, Spanned};
use crate::strings::{push_char, push_str, str_eq};
use vstd::prelude::*;

verus! {

/// An argument of a macro invocation, as written and after its own expansion.
#[derive(Debug)]
pub struct MacroArgument {
    pub unexpanded: Vec<Spanned<PreprocessingToken>>,
    pub expanded: Vec<Spanned<PreprocessingToken>>,
}

/// Walks a replacement list and yields what each of its tokens becomes: a parameter its
/// argument, `# x` a string literal, `a ## b` the tokens of the glued spelling, and
/// `__VA_ARGS__` the extra arguments separated by commas.
#[derive(Debug)]
pub struct ArgumentSubstitutionIterator {
    /// The file the tokens come from.
    pub file_id: usize,
    pub replacements: PrependingPeekableIterator<Spanned<PreprocessingToken>>,
    /// Parameter names with their arguments; a later entry hides an earlier one of the same name.
    pub map: Vec<(String, MacroArgument)>,
    pub is_variadic: bool,
    pub variadic_args: Vec<MacroArgument>,
    pub glue_next_token: bool,
    pub glue_string: String,
    pub stringify_next_token: bool,
    pub stringify_string: String,
}

/// The index of the last entry of `map` named `name`.
pub open spec fn arg_index(map: Seq<(String, MacroArgument)>, name: Seq<char>) -> Option<int>
    decreases map.len(),
{
    if map.len() == 0 {
        None
    } else if map.last().0@ == name {
        Some(map.len() - 1)
    } else {
        arg_index(map.drop_last(), name)
    }
}

pub proof fn lemma_arg_index(map: Seq<(String, MacroArgument)>, name: Seq<char>)
    ensures
        arg_index(map, name) matches Some(i) ==> 0 <= i < map.len() && map[i].0@ == name,
    decreases map.len(),
{
    if map.len() > 0 {
        lemma_arg_index(map.drop_last(), name);
    }
}

/// The expanded tokens of the arguments, one argument after the other.
pub open spec fn flat_expanded(args: Seq<MacroArgument>) -> Seq<Spanned<TokenView>>
    decreases args.len(),
{
    if args.len() == 0 {
        seq![]
    } else {
        flat_expanded(args.drop_last()) + tokens_view(args.last().expanded@)
    }
}

/// A comma at the empty location.
pub open spec fn comma_view() -> Spanned<TokenView> {
    Spanned { value: TokenView::Punctuator(Punctuator::Comma), location: empty_location() }
}

/// `s` with a comma between every two of its tokens.
pub open spec fn interspersed(s: Seq<Spanned<TokenView>>) -> Seq<Spanned<TokenView>>
    decreases s.len(),
{
    if s.len() <= 1 {
        s
    } else {
        interspersed(s.drop_last()) + seq![comma_view(), s.last()]
    }
}

/// What `__VA_ARGS__` becomes: the expanded tokens of the extra arguments, a comma between
/// every two tokens.
pub open spec fn va_view(args: Seq<MacroArgument>) -> Seq<Spanned<TokenView>> {
    interspersed(flat_expanded(args))
}

/// What a replacement list without `#` and `##` becomes: each parameter its expanded
/// argument (the last entry of `map` for its name), `__VA_ARGS__` of a variadic macro the
/// extra arguments, and every other token itself.
pub open spec fn substituted(
    rs: Seq<Spanned<PreprocessingToken>>,
    map: Seq<(String, MacroArgument)>,
    is_variadic: bool,
    variadic_args: Seq<MacroArgument>,
) -> Seq<Spanned<TokenView>>
    decreases rs.len(),
{
    if rs.len() == 0 {
        seq![]
    } else {
        let t = rs[0];
        let here = if t.value is Identifier && arg_index(map, t.value->Identifier_0@) is Some {
            tokens_view(map[arg_index(map, t.value->Identifier_0@)->0].1.expanded@)
        } else if t.value is Identifier && is_variadic && t.value->Identifier_0@ == "__VA_ARGS__"@ {
            va_view(variadic_args)
        } else {
            seq![spanned_view(t)]
        };
        here + substituted(rs.drop_first(), map, is_variadic, variadic_args)
    }
}

/// What a token stands for where it is stringified or glued: a parameter its argument as
/// written, any other token itself.
pub open spec fn written_view(t: Spanned<PreprocessingToken>, map: Seq<(String, MacroArgument)>) -> Seq<Spanned<TokenView>> {
    if t.value is Identifier && arg_index(map, t.value->Identifier_0@) is Some {
        tokens_view(map[arg_index(map, t.value->Identifier_0@)->0].1.unexpanded@)
    } else {
        seq![spanned_view(t)]
    }
}

/// What a token stands for where it is stringified or glued, on models: a parameter its
/// argument as written, any other token itself.
pub open spec fn written(t: Spanned<TokenView>, map: Seq<(String, MacroArgument)>) -> Seq<Spanned<TokenView>> {
    if t.value is Identifier && arg_index(map, t.value->Identifier_0) is Some {
        tokens_view(map[arg_index(map, t.value->Identifier_0)->0].1.unexpanded@)
    } else {
        seq![t]
    }
}

/// What a token becomes outside `#` and `##`, on models: a parameter its expanded
/// argument, `__VA_ARGS__` of a variadic macro the extra arguments, any other token itself.
pub open spec fn replaced(
    t: Spanned<TokenView>,
    map: Seq<(String, MacroArgument)>,
    is_variadic: bool,
    variadic_args: Seq<MacroArgument>,
) -> Seq<Spanned<TokenView>> {
    if t.value is Identifier && arg_index(map, t.value->Identifier_0) is Some {
        tokens_view(map[arg_index(map, t.value->Identifier_0)->0].1.expanded@)
    } else if t.value is Identifier && is_variadic && t.value->Identifier_0 == "__VA_ARGS__"@ {
        va_view(variadic_args)
    } else {
        seq![t]
    }
}

/// What the rest `rs` of a replacement list becomes, from a state of the substitution
/// (whether a glue is under way and its text `gs`, whether the next token is to be
/// stringified and the text `ss` so far), where `wr` gives what a token stands for when it
/// is stringified or glued and `rep` what it becomes elsewhere: `# x` the string literal of
/// how `wr(x)` is spelled, `a ## b` the tokens of the glued spelling moved to the place of
/// its last operand, and every other token `x` becomes `rep(x)`. `None` where the
/// substitution fails, or where a glued spelling is not made of plain tokens.
pub open spec fn subst_steps(
    rs: Seq<Spanned<TokenView>>,
    glue: bool,
    gs: Seq<char>,
    strf: bool,
    ss: Seq<char>,
    wr: spec_fn(Spanned<TokenView>) -> Seq<Spanned<TokenView>>,
    rep: spec_fn(Spanned<TokenView>) -> Seq<Spanned<TokenView>>,
    file_id: usize,
) -> Option<Seq<Spanned<TokenView>>>
    decreases 2 * rs.len() + if strf { 1int } else { 0int },
{
    if rs.len() == 0 {
        Some(seq![])
    } else {
        let t = rs[0];
        let w = wr(t);
        let glue_follows = rs.len() > 1 && rs[1].value == TokenView::Punctuator(Punctuator::HashHash);
        if glue {
            if any_control_line(w) {
                None
            } else if glue_follows {
                subst_steps(rs.skip(2), true, gs + rendered_all(w), strf, ss, wr, rep, file_id)
            } else {
                let g = gs + rendered_all(w);
                if 4 * g.len() > usize::MAX {
                    None
                } else {
                    match simple_tokens(prelex_spec(g, 0, file_id), true, file_id) {
                        Some(ts) => match subst_steps(rs.drop_first(), false, seq![], strf, ss, wr, rep, file_id) {
                            Some(rest) => Some(relocated(ts, t.location) + rest),
                            None => None,
                        },
                        None => None,
                    }
                }
            }
        } else if strf {
            if any_control_line(w) {
                None
            } else {
                let lit = Spanned { value: TokenView::StringLiteral(ss + rendered_all(w)), location: t.location };
                subst_steps(seq![lit] + rs.drop_first(), false, gs, false, seq![], wr, rep, file_id)
            }
        } else if t.value == TokenView::Punctuator(Punctuator::Hash) {
            subst_steps(rs.drop_first(), false, gs, true, ss, wr, rep, file_id)
        } else if glue_follows {
            if any_control_line(w) {
                None
            } else {
                subst_steps(rs.skip(2), true, gs + rendered_all(w), false, ss, wr, rep, file_id)
            }
        } else {
            match subst_steps(rs.drop_first(), false, gs, false, ss, wr, rep, file_id) {
                Some(rest) => Some(rep(t) + rest),
                None => None,
            }
        }
    }
}

/// The first tokens of a sequence, and what follows them, read on its model.
pub proof fn lemma_tokens_view_front(s: Seq<Spanned<PreprocessingToken>>)
    ensures
        s.len() > 0 ==> tokens_view(s)[0] == spanned_view(s[0]) && tokens_view(s).drop_first() == tokens_view(
            s.drop_first(),
        ),
        s.len() > 1 ==> tokens_view(s)[1] == spanned_view(s[1]) && tokens_view(s).skip(2) == tokens_view(s.skip(2)),
        tokens_view(s).len() == s.len(),
{
    lemma_tokens_view(s);
    if s.len() > 0 {
        lemma_tokens_view(s.drop_first());
        assert(tokens_view(s).drop_first() =~= tokens_view(s.drop_first()));
    }
    if s.len() > 1 {
        lemma_tokens_view(s.skip(2));
        assert(tokens_view(s).skip(2) =~= tokens_view(s.skip(2)));
    }
}

/// Whether `t` is the punctuator `p`.
pub open spec fn is_punct(t: Spanned<PreprocessingToken>, p: Punctuator) -> bool {
    t.value == PreprocessingToken::Punctuator(p)
}

impl ArgumentSubstitutionIterator {
    /// A substitution over `replacements` (whitespace already removed) with the given arguments.
    pub fn new(
        file_id: usize,
        replacements: Vec<Spanned<PreprocessingToken>>,
        map: Vec<(String, MacroArgument)>,
        is_variadic: bool,
        variadic_args: Vec<MacroArgument>,
    ) -> (r: Self)
        ensures
            r.file_id == file_id,
            r.replacements@ == replacements@,
            r.map@ == map@,
            r.is_variadic == is_variadic,
            r.variadic_args@ == variadic_args@,
            !r.glue_next_token,
            !r.stringify_next_token,
            r.glue_string@ == Seq::<char>::empty(),
            r.stringify_string@ == Seq::<char>::empty(),
    {
        ArgumentSubstitutionIterator {
            file_id,
            replacements: PrependingPeekableIterator::new(replacements),
            map,
            is_variadic,
            variadic_args,
            glue_next_token: false,
            glue_string: String::new(),
            stringify_next_token: false,
            stringify_string: String::new(),
        }
    }

    /// The index of the last argument named `name`.
    pub fn find_arg(&self, name: &str) -> (r: Option<usize>)
        ensures
            r matches Some(i) ==> arg_index(self.map@, name@) == Some(i as int),
            r is None ==> arg_index(self.map@, name@) is None,
    {
        let mut i = self.map.len();
        assert(self.map@.take(i as int) =~= self.map@);
        while i > 0
            invariant
                i <= self.map@.len(),
                arg_index(self.map@, name@) == arg_index(self.map@.take(i as int), name@),
            decreases i,
        {
            let ghost pre = self.map@.take(i as int);
            assert(pre.drop_last() =~= self.map@.take(i - 1));
            if str_eq(self.map[i - 1].0.as_str(), name) {
                return Some(i - 1);
            }
            i -= 1;
        }
        None
    }

    /// A parameter's argument (expanded or as written), or the token itself.
    pub fn maybe_substitute_arg(&self, token: Spanned<PreprocessingToken>, expand: bool) -> (r: Vec<Spanned<PreprocessingToken>>)
        ensures
            token.value matches PreprocessingToken::Identifier(name) && arg_index(self.map@, name@) is Some ==> {
                let arg = self.map@[arg_index(self.map@, token.value->Identifier_0@)->0].1;
                tokens_view(r@) == tokens_view(if expand { arg.expanded@ } else { arg.unexpanded@ })
            },
            !(token.value matches PreprocessingToken::Identifier(name) && arg_index(self.map@, name@) is Some) ==> r@
                == seq![token],
    {
        let found = match &token.value {
            PreprocessingToken::Identifier(identifier) => self.find_arg(identifier.as_str()),
            _ => None,
        };
        match found {
            Some(i) => {
                proof {
                    lemma_arg_index(self.map@, token.value->Identifier_0@);
                }
                if expand {
                    copy_tokens(&self.map[i].1.expanded)
                } else {
                    copy_tokens(&self.map[i].1.unexpanded)
                }
            },
            None => {
                let mut v = Vec::new();
                v.push(token);
                v
            },
        }
    }

    /// What the rest of the replacement list becomes from the present state (see `subst_steps`).
    pub open spec fn remaining_output(&self) -> Option<Seq<Spanned<TokenView>>> {
        subst_steps(
            tokens_view(self.replacements@),
            self.glue_next_token,
            self.glue_string@,
            self.stringify_next_token,
            self.stringify_string@,
            |t: Spanned<TokenView>| written(t, self.map@),
            |t: Spanned<TokenView>| replaced(t, self.map@, self.is_variadic, self.variadic_args@),
            self.file_id,
        )
    }

    /// Decreases with every call of `next` that yields something.
    pub open spec fn measure(&self) -> nat {
        2 * self.replacements@.len() + if self.stringify_next_token { 1nat } else { 0nat }
    }

    /// What the next token of the replacement list becomes.
    pub fn next(&mut self) -> (r: PResult<Option<Vec<Spanned<PreprocessingToken>>>>)
        ensures
            final(self).file_id == old(self).file_id,
            final(self).map@ == old(self).map@,
            final(self).is_variadic == old(self).is_variadic,
            final(self).variadic_args@ == old(self).variadic_args@,
            old(self).replacements@.len() == 0 ==> r matches Ok(None),
            r matches Ok(None) ==> old(self).replacements@.len() == 0 && final(self).replacements@ == old(
                self,
            ).replacements@,
            r matches Ok(Some(_)) ==> final(self).measure() < old(self).measure(),
            ({
                let rs = old(self).replacements@;
                let t = rs[0];
                &&& rs.len() > 0
                &&& !old(self).glue_next_token
                &&& !old(self).stringify_next_token
                &&& !is_punct(t, Punctuator::Hash)
                &&& !(rs.len() > 1 && is_punct(rs[1], Punctuator::HashHash))
            }) ==> {
                let rs = old(self).replacements@;
                let t = rs[0];
                &&& final(self).replacements@ == rs.drop_first()
                &&& !final(self).glue_next_token
                &&& !final(self).stringify_next_token
                &&& final(self).glue_string@ == old(self).glue_string@
                &&& final(self).stringify_string@ == old(self).stringify_string@
                &&& if t.value matches PreprocessingToken::Identifier(name) && arg_index(old(self).map@, name@) is Some {
                    r matches Ok(Some(v)) && tokens_view(v@) == tokens_view(
                        old(self).map@[arg_index(old(self).map@, t.value->Identifier_0@)->0].1.expanded@,
                    )
                } else if t.value matches PreprocessingToken::Identifier(name) && old(self).is_variadic && name@
                    == "__VA_ARGS__"@ {
                    r matches Ok(Some(v)) && tokens_view(v@) == va_view(old(self).variadic_args@)
                } else {
                    r matches Ok(Some(v)) && v@ == seq![t]
                }
            },
            ({
                let rs = old(self).replacements@;
                rs.len() > 0 && !old(self).glue_next_token && !old(self).stringify_next_token && is_punct(
                    rs[0],
                    Punctuator::Hash,
                )
            }) ==> {
                &&& r matches Ok(Some(v)) && v@.len() == 0
                &&& final(self).replacements@ == old(self).replacements@.drop_first()
                &&& final(self).stringify_next_token
                &&& !final(self).glue_next_token
                &&& final(self).stringify_string@ == old(self).stringify_string@
                &&& final(self).glue_string@ == old(self).glue_string@
            },
            (old(self).replacements@.len() > 0 && !old(self).glue_next_token && old(self).stringify_next_token) ==> {
                let rs = old(self).replacements@;
                let w = written_view(rs[0], old(self).map@);
                if any_control_line(w) {
                    r is Err
                } else {
                    &&& r matches Ok(Some(v)) && v@.len() == 0
                    &&& final(self).replacements@.len() == rs.len()
                    &&& final(self).replacements@.drop_first() == rs.drop_first()
                    &&& spanned_view(final(self).replacements@[0]) == Spanned {
                        value: TokenView::StringLiteral(old(self).stringify_string@ + rendered_all(w)),
                        location: rs[0].location,
                    }
                    &&& !final(self).stringify_next_token
                    &&& !final(self).glue_next_token
                    &&& final(self).stringify_string@.len() == 0
                    &&& final(self).glue_string@ == old(self).glue_string@
                }
            },
            ({
                let rs = old(self).replacements@;
                rs.len() > 1 && !old(self).glue_next_token && !old(self).stringify_next_token && !is_punct(
                    rs[0],
                    Punctuator::Hash,
                ) && is_punct(rs[1], Punctuator::HashHash)
            }) ==> {
                let rs = old(self).replacements@;
                let w = written_view(rs[0], old(self).map@);
                if any_control_line(w) {
                    r is Err
                } else {
                    &&& r matches Ok(Some(v)) && v@.len() == 0
                    &&& final(self).replacements@ == rs.skip(2)
                    &&& final(self).glue_next_token
                    &&& !final(self).stringify_next_token
                    &&& final(self).glue_string@ == old(self).glue_string@ + rendered_all(w)
                    &&& final(self).stringify_string@ == old(self).stringify_string@
                }
            },
            (old(self).replacements@.len() > 0 && old(self).glue_next_token) ==> {
                let rs = old(self).replacements@;
                let w = written_view(rs[0], old(self).map@);
                let g = old(self).glue_string@ + rendered_all(w);
                if any_control_line(w) {
                    r is Err
                } else if rs.len() > 1 && is_punct(rs[1], Punctuator::HashHash) {
                    &&& r matches Ok(Some(v)) && v@.len() == 0
                    &&& final(self).replacements@ == rs.skip(2)
                    &&& final(self).glue_next_token
                    &&& final(self).glue_string@ == g
                    &&& final(self).stringify_next_token == old(self).stringify_next_token
                    &&& final(self).stringify_string@ == old(self).stringify_string@
                } else {
                    &&& r is Ok ==> final(self).replacements@ == rs.drop_first() && !final(self).glue_next_token
                        && final(self).glue_string@.len() == 0
                    &&& final(self).stringify_next_token == old(self).stringify_next_token
                    &&& final(self).stringify_string@ == old(self).stringify_string@
                    &&& 4 * g.len() > usize::MAX ==> r is Err
                    &&& (4 * g.len() <= usize::MAX && simple_tokens(prelex_spec(g, 0, old(self).file_id), true, old(self).file_id)
                        is Some) ==> (r matches Ok(Some(v)) && tokens_view(v@) == relocated(
                        simple_tokens(prelex_spec(g, 0, old(self).file_id), true, old(self).file_id)->0,
                        rs[0].location,
                    ))
                }
            },
    {
        let token = match self.replacements.next() {
            Some(t) => t,
            None => {
                return Ok(None);
            },
        };
        let location = token.location.duplicate();
        proof {
            lemma_tokens_view(seq![token]);
            assert(tokens_view(seq![token]) =~= seq![spanned_view(token)]);
        }
        if self.glue_next_token {
            let a = self.maybe_substitute_arg(token, false);
            if tokens_have_control_line(&a) {
                return Err(simple_error(&location, "cannot glue a control line"));
            }
            Self::stringify_tokens(&a, &mut self.glue_string);
            let next_is_glue = match self.replacements.peek() {
                Some(t) => match &t.value {
                    PreprocessingToken::Punctuator(Punctuator::HashHash) => true,
                    _ => false,
                },
                None => false,
            };
            if !next_is_glue {
                let chars = str_chars(self.glue_string.as_str());
                if chars.len() > usize::MAX / 4 {
                    return Err(simple_error(&location, "glued token is too long"));
                }
                let lexed = lex(self.file_id, self.glue_string.as_str())?;
                let mut tokens: Vec<Spanned<PreprocessingToken>> = Vec::new();
                let mut lexed = lexed;
                let ghost lex0 = lexed@;
                let ghost mut k: int = 0;
                proof {
                    lemma_tokens_view(lex0);
                    lemma_tokens_view(tokens@);
                }
                while lexed.len() > 0
                    invariant
                        0 <= k <= lex0.len(),
                        lexed@ == lex0.skip(k),
                        tokens@.len() == k,
                        tokens_view(lex0).len() == lex0.len(),
                        forall|x: int| 0 <= x < lex0.len() ==> #[trigger] tokens_view(lex0)[x] == spanned_view(lex0[x]),
                        forall|x: int|
                            0 <= x < k ==> #[trigger] spanned_view(tokens@[x]) == relocated(tokens_view(lex0), location)[x],
                    decreases lexed@.len(),
                {
                    let t = lexed.remove(0);
                    proof {
                        assert(t == lex0[k]);
                        assert(lexed@ =~= lex0.skip(k + 1));
                    }
                    tokens.push(Spanned::new(location.duplicate(), t.value));
                    proof {
                        k = k + 1;
                    }
                }
                proof {
                    lemma_tokens_view(tokens@);
                    assert(tokens_view(tokens@) =~= relocated(tokens_view(lex0), location));
                }
                self.glue_next_token = false;
                self.glue_string = String::new();
                Ok(Some(tokens))
            } else {
                self.replacements.next();
                Ok(Some(Vec::new()))
            }
        } else if self.stringify_next_token {
            let a = self.maybe_substitute_arg(token, false);
            if tokens_have_control_line(&a) {
                return Err(simple_error(&location, "cannot stringify a control line"));
            }
            Self::stringify_tokens(&a, &mut self.stringify_string);
            self.replacements.prepend(
                Spanned::new(location, PreprocessingToken::StringLiteral(self.stringify_string.clone())),
            );
            self.stringify_next_token = false;
            self.stringify_string = String::new();
            Ok(Some(Vec::new()))
        } else if match &token.value {
            PreprocessingToken::Punctuator(Punctuator::Hash) => true,
            _ => false,
        } {
            self.stringify_next_token = true;
            Ok(Some(Vec::new()))
        } else if match self.replacements.peek() {
            Some(t) => match &t.value {
                PreprocessingToken::Punctuator(Punctuator::HashHash) => true,
                _ => false,
            },
            None => false,
        } {
            self.glue_next_token = true;
            let a = self.maybe_substitute_arg(token, false);
            if tokens_have_control_line(&a) {
                return Err(simple_error(&location, "cannot glue a control line"));
            }
            Self::stringify_tokens(&a, &mut self.glue_string);
            self.replacements.next();  // eat ##
            Ok(Some(Vec::new()))
        } else {
            let found = match &token.value {
                PreprocessingToken::Identifier(identifier) => self.find_arg(identifier.as_str()),
                _ => None,
            };
            match found {
                Some(i) => {
                    proof {
                        lemma_arg_index(self.map@, token.value->Identifier_0@);
                    }
                    Ok(Some(copy_tokens(&self.map[i].1.expanded)))
                },
                None => {
                    let is_va_args = self.is_variadic && match &token.value {
                        PreprocessingToken::Identifier(identifier) => str_eq(identifier.as_str(), "__VA_ARGS__"),
                        _ => false,
                    };
                    if is_va_args {
                        let mut out: Vec<Spanned<PreprocessingToken>> = Vec::new();
                        let mut first = true;
                        let mut i: usize = 0;
                        let ghost vargs = self.variadic_args@;
                        assert(vargs.take(0) =~= Seq::<MacroArgument>::empty());
                        proof {
                            lemma_tokens_view(Seq::<Spanned<PreprocessingToken>>::empty());
                        }
                        while i < self.variadic_args.len()
                            invariant
                                vargs == self.variadic_args@,
                                i <= vargs.len(),
                                tokens_view(out@) == interspersed(flat_expanded(vargs.take(i as int))),
                                first == (flat_expanded(vargs.take(i as int)).len() == 0),
                            decreases self.variadic_args@.len() - i,
                        {
                            let arg = &self.variadic_args[i];
                            let mut j: usize = 0;
                            let ghost pre = flat_expanded(vargs.take(i as int));
                            assert(arg.expanded@.take(0) =~= Seq::<Spanned<PreprocessingToken>>::empty());
                            assert(pre + tokens_view(arg.expanded@.take(0)) =~= pre);
                            while j < arg.expanded.len()
                                invariant
                                    j <= arg.expanded@.len(),
                                    tokens_view(out@) == interspersed(pre + tokens_view(arg.expanded@.take(j as int))),
                                    first == ((pre + tokens_view(arg.expanded@.take(j as int))).len() == 0),
                                decreases arg.expanded@.len() - j,
                            {
                                let ghost sofar = pre + tokens_view(arg.expanded@.take(j as int));
                                let t = copy_token(&arg.expanded[j]);
                                proof {
                                    assert(arg.expanded@.take(j + 1) =~= arg.expanded@.take(j as int).push(arg.expanded@[j as int]));
                                    lemma_tokens_view_push(arg.expanded@.take(j as int), arg.expanded@[j as int]);
                                    assert(pre + tokens_view(arg.expanded@.take(j + 1)) =~= sofar.push(spanned_view(t)));
                                    assert(sofar.push(spanned_view(t)).drop_last() =~= sofar);
                                }
                                if !first {
                                    let comma = Spanned::new(Location::new(), PreprocessingToken::Punctuator(Punctuator::Comma));
                                    proof {
                                        lemma_tokens_view_push(out@, comma);
                                    }
                                    out.push(comma);
                                }
                                first = false;
                                proof {
                                    lemma_tokens_view_push(out@, t);
                                    assert(interspersed(sofar.push(spanned_view(t))) =~= if sofar.len() == 0 {
                                        seq![spanned_view(t)]
                                    } else {
                                        interspersed(sofar) + seq![comma_view(), spanned_view(t)]
                                    });
                                }
                                out.push(t);
                                j += 1;
                            }
                            proof {
                                assert(arg.expanded@.take(j as int) =~= arg.expanded@);
                                assert(vargs.take(i + 1).drop_last() =~= vargs.take(i as int));
                            }
                            i += 1;
                        }
                        assert(vargs.take(i as int) =~= vargs);
                        Ok(Some(out))
                    } else {
                        let mut v = Vec::new();
                        v.push(token);
                        Ok(Some(v))
                    }
                },
            }
        }
    }

    /// Everything the rest of the replacement list becomes, in order.
    #[verifier::rlimit(40)]
    pub fn collect_all(&mut self) -> (r: PResult<Vec<Spanned<PreprocessingToken>>>)
        ensures
            old(self).remaining_output() matches Some(o) ==> (r matches Ok(v) && tokens_view(v@) == o),
            (!old(self).glue_next_token && !old(self).stringify_next_token && forall|i: int|
                0 <= i < old(self).replacements@.len() ==> !is_punct(#[trigger] old(self).replacements@[i], Punctuator::Hash)
                    && !is_punct(old(self).replacements@[i], Punctuator::HashHash)) ==> (r matches Ok(v) && tokens_view(v@)
                == substituted(old(self).replacements@, old(self).map@, old(self).is_variadic, old(self).variadic_args@)),
            (!old(self).glue_next_token && !old(self).stringify_next_token && old(self).map@.len() == 0
                && !old(self).is_variadic && forall|i: int|
                0 <= i < old(self).replacements@.len() ==> !is_punct(#[trigger] old(self).replacements@[i], Punctuator::Hash)
                    && !is_punct(old(self).replacements@[i], Punctuator::HashHash)) ==> (r matches Ok(v) && v@
                == old(self).replacements@),
    {
        let ghost rs0 = self.replacements@;
        let ghost plain = !self.glue_next_token && !self.stringify_next_token && self.map@.len() == 0
            && !self.is_variadic && forall|i: int|
            0 <= i < rs0.len() ==> !is_punct(#[trigger] rs0[i], Punctuator::Hash) && !is_punct(rs0[i], Punctuator::HashHash);
        let ghost general = !self.glue_next_token && !self.stringify_next_token && forall|i: int|
            0 <= i < rs0.len() ==> !is_punct(#[trigger] rs0[i], Punctuator::Hash) && !is_punct(rs0[i], Punctuator::HashHash);
        let ghost goal = substituted(rs0, self.map@, self.is_variadic, self.variadic_args@);
        let ghost full = self.remaining_output();
        let mut out: Vec<Spanned<PreprocessingToken>> = Vec::new();
        proof {
            lemma_tokens_view(out@);
            assert(tokens_view(out@) + goal =~= goal);
            if full is Some {
                assert(tokens_view(out@) + full->0 =~= full->0);
            }
        }
        loop
            invariant
                full == old(self).remaining_output(),
                self.file_id == old(self).file_id,
                full is Some ==> (self.remaining_output() is Some && full->0 == tokens_view(out@)
                    + self.remaining_output()->0),
                general == (!old(self).glue_next_token && !old(self).stringify_next_token && forall|i: int|
                    0 <= i < rs0.len() ==> !is_punct(#[trigger] rs0[i], Punctuator::Hash) && !is_punct(rs0[i], Punctuator::HashHash)),
                goal == substituted(rs0, old(self).map@, old(self).is_variadic, old(self).variadic_args@),
                self.map@ == old(self).map@,
                self.is_variadic == old(self).is_variadic,
                self.variadic_args@ == old(self).variadic_args@,
                general ==> {
                    &&& !self.glue_next_token
                    &&& !self.stringify_next_token
                    &&& forall|i: int|
                        0 <= i < self.replacements@.len() ==> !is_punct(#[trigger] self.replacements@[i], Punctuator::Hash)
                            && !is_punct(self.replacements@[i], Punctuator::HashHash)
                    &&& tokens_view(out@) + substituted(self.replacements@, self.map@, self.is_variadic, self.variadic_args@)
                        == goal
                },
                rs0 == old(self).replacements@,
                plain == (!old(self).glue_next_token && !old(self).stringify_next_token && old(self).map@.len() == 0
                    && !old(self).is_variadic && forall|i: int|
                    0 <= i < rs0.len() ==> !is_punct(#[trigger] rs0[i], Punctuator::Hash) && !is_punct(rs0[i], Punctuator::HashHash)),
                plain ==> {
                    &&& !self.glue_next_token
                    &&& !self.stringify_next_token
                    &&& self.map@.len() == 0
                    &&& !self.is_variadic
                    &&& out@ + self.replacements@ == rs0
                    &&& forall|i: int|
                        0 <= i < self.replacements@.len() ==> !is_punct(#[trigger] self.replacements@[i], Punctuator::Hash)
                            && !is_punct(self.replacements@[i], Punctuator::HashHash)
                },
            decreases self.measure(),
        {
            let ghost before = self.replacements@;
            let ghost pre = *self;
            proof {
                lemma_tokens_view_front(before);
                if before.len() > 0 {
                    assert(written(spanned_view(before[0]), self.map@) == written_view(before[0], self.map@));
                }
                if (plain || general) && before.len() > 0 {
                    assert(!is_punct(before[0], Punctuator::Hash));
                    if before.len() > 1 {
                        assert(!is_punct(before[1], Punctuator::HashHash));
                    }
                }
            }
            match self.next()? {
                Some(v) => {
                    let ghost o = out@;
                    let ghost added = v@;
                    let mut v = v;
                    out.append(&mut v);
                    proof {
                        lemma_tokens_view_add(o, added);
                        if full is Some {
                            let rest = self.remaining_output();
                            lemma_tokens_view_front(self.replacements@);
                            lemma_tokens_view(seq![before[0]]);
                            assert(tokens_view(seq![before[0]]) =~= seq![spanned_view(before[0])]);
                            if !pre.glue_next_token && pre.stringify_next_token {
                                assert(tokens_view(self.replacements@) =~= seq![spanned_view(self.replacements@[0])]
                                    + tokens_view(before.drop_first()));
                            }
                            if pre.glue_next_token && self.glue_string@.len() == 0 {
                                assert(self.glue_string@ =~= Seq::<char>::empty());
                            }
                            if !pre.glue_next_token && pre.stringify_next_token {
                                assert(self.stringify_string@ =~= Seq::<char>::empty());
                            }
                            assert(pre.remaining_output()->0 =~= tokens_view(added) + rest->0);
                            assert(full->0 =~= tokens_view(out@) + rest->0);
                        }
                        if general {
                            let t = before[0];
                            lemma_tokens_view(seq![t]);
                            assert(tokens_view(seq![t]) =~= seq![spanned_view(t)]);
                            assert(self.replacements@ == before.drop_first());
                            assert(substituted(before, self.map@, self.is_variadic, self.variadic_args@) == tokens_view(added)
                                + substituted(before.drop_first(), self.map@, self.is_variadic, self.variadic_args@));
                            assert(tokens_view(out@) + substituted(self.replacements@, self.map@, self.is_variadic, self.variadic_args@)
                                =~= goal);
                            assert forall|i: int| 0 <= i < self.replacements@.len() implies !is_punct(
                                #[trigger] self.replacements@[i],
                                Punctuator::Hash,
                            ) && !is_punct(self.replacements@[i], Punctuator::HashHash) by {
                                assert(self.replacements@[i] == before[i + 1]);
                            }
                        }
                        if plain {
                            assert(out@ + self.replacements@ =~= o + before);
                            assert forall|i: int| 0 <= i < self.replacements@.len() implies !is_punct(
                                #[trigger] self.replacements@[i],
                                Punctuator::Hash,
                            ) && !is_punct(self.replacements@[i], Punctuator::HashHash) by {
                                assert(self.replacements@[i] == before[i + 1]);
                            }
                        }
                    }
                },
                None => {
                    proof {
                        if full is Some {
                            assert(tokens_view(out@) + Seq::<Spanned<TokenView>>::empty() =~= tokens_view(out@));
                        }
                        if plain {
                            assert(out@ + self.replacements@ =~= out@);
                        }
                        if general {
                            assert(tokens_view(out@) + Seq::<Spanned<TokenView>>::empty() =~= tokens_view(out@));
                        }
                    }
                    return Ok(out);
                },
            }
        }
    }

    /// Appends how `tokens` are written to `s`.
    pub fn stringify_tokens(tokens: &Vec<Spanned<PreprocessingToken>>, s: &mut String)
        requires
            !any_control_line(tokens_view(tokens@)),
        ensures
            final(s)@ == old(s)@ + rendered_all(tokens_view(tokens@)),
        decreases tokens, 1int,
    {
        let mut i: usize = 0;
        assert(tokens@.take(0) =~= Seq::<Spanned<PreprocessingToken>>::empty());
        while i < tokens.len()
            invariant
                i <= tokens@.len(),
                !any_control_line(tokens_view(tokens@)),
                s@ == old(s)@ + rendered_all(tokens_view(tokens@.take(i as int))),
            decreases tokens@.len() - i,
        {
            assert(decreases_to!(tokens => tokens@[i as int]));
            proof {
                assert(tokens@.take(i as int) + tokens@.subrange(i as int, tokens@.len() as int) =~= tokens@);
                lemma_tokens_view_add(tokens@.take(i as int), tokens@.subrange(i as int, tokens@.len() as int));
                lemma_rendered_all_add(
                    tokens_view(tokens@.take(i as int)),
                    tokens_view(tokens@.subrange(i as int, tokens@.len() as int)),
                );
                lemma_tokens_view(tokens@.subrange(i as int, tokens@.len() as int));
                let rest = tokens_view(tokens@.subrange(i as int, tokens@.len() as int));
                assert(rest[0] == spanned_view(tokens@[i as int]));
                assert(any_control_line(rest) == (has_control_line(rest[0].value) || any_control_line(rest.drop_first())));
            }
            Self::stringify_token(&tokens[i], s);
            proof {
                assert(tokens@.take(i + 1int) =~= tokens@.take(i as int).push(tokens@[i as int]));
                lemma_tokens_view_push(tokens@.take(i as int), tokens@[i as int]);
                let one = seq![spanned_view(tokens@[i as int])];
                lemma_rendered_all_add(tokens_view(tokens@.take(i as int)), one);
                assert(one.drop_first() =~= Seq::<Spanned<TokenView>>::empty());
                assert(rendered_all(Seq::<Spanned<TokenView>>::empty()) =~= Seq::<char>::empty());
                assert(one[0].value == token_view(tokens@[i as int].value));
                assert(rendered_all(one) =~= rendered(token_view(tokens@[i as int].value)));
                let pre = tokens_view(tokens@.take(i as int));
                assert(pre.push(spanned_view(tokens@[i as int])) =~= pre + one);
                assert(tokens_view(tokens@.take(i + 1int)) == pre + one);
                assert(s@ =~= old(s)@ + rendered_all(tokens_view(tokens@.take(i + 1int))));
            }
            i += 1;
        }
        assert(tokens@.take(tokens@.len() as int) =~= tokens@);
    }

    /// Appends how `token` is written to `s`.
    pub fn stringify_token(token: &Spanned<PreprocessingToken>, s: &mut String)
        requires
            !has_control_line(token_view(token.value)),
        ensures
            final(s)@ == old(s)@ + rendered(token_view(token.value)),
        decreases token, 0int,
    {
        match &token.value {
            PreprocessingToken::Identifier(identifier) => push_str(s, identifier.as_str()),
            PreprocessingToken::BlueIdentifier(identifier) => push_str(s, identifier.as_str()),
            PreprocessingToken::StringLiteral(string) => {
                push_char(s, '"');
                push_str(s, string.as_str());
                push_char(s, '"');
                assert(s@ =~= old(s)@ + rendered(token_view(token.value)));
            },
            PreprocessingToken::CharLiteral(chars) => {
                push_char(s, '\'');
                push_str(s, chars.as_str());
                push_char(s, '\'');
                assert(s@ =~= old(s)@ + rendered(token_view(token.value)));
            },
            PreprocessingToken::PPNumber(number) => push_str(s, number.as_str()),
            PreprocessingToken::Whitespace(whitespace) => {
                push_char(
                    s,
                    match whitespace {
                        Whitespace::Space => ' ',
                        Whitespace::Newline => '\n',
                        Whitespace::Tab => '\t',
                    },
                );
            },
            PreprocessingToken::Punctuator(punctuator) => push_str(s, punctuator.to_string().as_str()),
            PreprocessingToken::Delimited(d) => {
                Self::stringify_token(&d.opener, s);
                Self::stringify_tokens(&d.inner_tokens, s);
                Self::stringify_token(&d.closer, s);
                assert(s@ =~= old(s)@ + rendered(token_view(token.value)));
            },
            PreprocessingToken::ControlLine(_) => {
                proof {
                    assert(false);
                }
            },
        }
    }
}

} // verus!

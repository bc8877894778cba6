//! The arguments of a function-like macro invocation and what its replacement list becomes,
//! stated over token models.
use crate::ast::{lemma_tokens_view, lemma_tokens_view_push, spanned_view, tokens_view, PreprocessingToken, Punctuator, TokenView};
use crate::expand::{passes_through, MacroView};
use crate::macros::{comma_groups, is_comma, lemma_comma_groups_nonempty, split_spec};
use crate::spanned::Spanned;
use crate::substitute::{arg_index, flat_expanded, interspersed, substituted, MacroArgument};
use vstd::prelude::*;

verus! {

/// Whether a token model is a comma.
pub open spec fn is_comma_view(t: Spanned<TokenView>) -> bool {
    t.value == TokenView::Punctuator(Punctuator::Comma)
}

/// `s` cut at every comma into the groups between them (commas dropped).
pub open spec fn comma_groups_view(s: Seq<Spanned<TokenView>>) -> Seq<Seq<Spanned<TokenView>>>
    decreases s.len(),
{
    if s.len() == 0 {
        seq![seq![]]
    } else {
        let groups = comma_groups_view(s.drop_last());
        if is_comma_view(s.last()) {
            groups.push(seq![])
        } else {
            groups.update(groups.len() - 1, groups.last().push(s.last()))
        }
    }
}

/// The arguments of an invocation whose parentheses hold `s`: none for nothing, else the
/// comma groups.
pub open spec fn split_view(s: Seq<Spanned<TokenView>>) -> Seq<Seq<Spanned<TokenView>>> {
    if s.len() == 0 {
        seq![]
    } else {
        comma_groups_view(s)
    }
}

/// Whether a token model comes out of expansion as it went in (see `passes_through`).
pub open spec fn passes_view(
    t: Spanned<TokenView>,
    macros: Map<Seq<char>, MacroView>,
    exp: Set<Seq<char>>,
    respect_defined: bool,
) -> bool {
    &&& !(t.value is Delimited)
    &&& t.value is Identifier ==> {
        let id = t.value->Identifier_0;
        &&& !macros.contains_key(id)
        &&& !exp.contains(id)
        &&& !(respect_defined && id == "defined"@)
    }
}

/// The index of the last parameter named `name`.
pub open spec fn last_param(params: Seq<Seq<char>>, name: Seq<char>) -> Option<int>
    decreases params.len(),
{
    if params.len() == 0 {
        None
    } else if params.last() == name {
        Some(params.len() - 1)
    } else {
        last_param(params.drop_last(), name)
    }
}

/// The tokens of a sequence of groups, one group after the other.
pub open spec fn flatten_view(gs: Seq<Seq<Spanned<TokenView>>>) -> Seq<Spanned<TokenView>>
    decreases gs.len(),
{
    if gs.len() == 0 {
        seq![]
    } else {
        flatten_view(gs.drop_last()) + gs.last()
    }
}

/// What a replacement list without `#` and `##` becomes for arguments that come out of
/// their own expansion as `groups`: a parameter the argument in its place (the last
/// parameter of that name), `__VA_ARGS__` of a variadic macro the arguments after the
/// named ones with a comma between every two tokens, any other token itself.
pub open spec fn subst_view(
    rs: Seq<Spanned<TokenView>>,
    params: Seq<Seq<char>>,
    groups: Seq<Seq<Spanned<TokenView>>>,
    variadic: bool,
) -> Seq<Spanned<TokenView>>
    decreases rs.len(),
{
    if rs.len() == 0 {
        seq![]
    } else {
        let t = rs[0];
        let here = if t.value is Identifier && last_param(params, t.value->Identifier_0) is Some {
            groups[last_param(params, t.value->Identifier_0)->0]
        } else if t.value is Identifier && variadic && t.value->Identifier_0 == "__VA_ARGS__"@ {
            interspersed(flatten_view(groups.skip(params.len() as int)))
        } else {
            seq![t]
        };
        here + subst_view(rs.drop_first(), params, groups, variadic)
    }
}

/// What a token of a function-like macro's replacement list stands for where it is
/// stringified or glued: a parameter the tokens of its argument, any other token itself.
pub open spec fn fn_written(
    t: Spanned<TokenView>,
    params: Seq<Seq<char>>,
    groups: Seq<Seq<Spanned<TokenView>>>,
) -> Seq<Spanned<TokenView>> {
    if t.value is Identifier && last_param(params, t.value->Identifier_0) is Some {
        groups[last_param(params, t.value->Identifier_0)->0]
    } else {
        seq![t]
    }
}

/// What a token of a function-like macro's replacement list becomes elsewhere, where
/// `groups` are the arguments as they come out of their own expansion: a parameter its
/// argument, `__VA_ARGS__` the extra arguments with commas between their tokens, any other
/// token itself.
pub open spec fn fn_replaced(
    t: Spanned<TokenView>,
    params: Seq<Seq<char>>,
    groups: Seq<Seq<Spanned<TokenView>>>,
    variadic: bool,
) -> Seq<Spanned<TokenView>> {
    if t.value is Identifier && last_param(params, t.value->Identifier_0) is Some {
        groups[last_param(params, t.value->Identifier_0)->0]
    } else if t.value is Identifier && variadic && t.value->Identifier_0 == "__VA_ARGS__"@ {
        interspersed(flatten_view(groups.skip(params.len() as int)))
    } else {
        seq![t]
    }
}

/// Whether a token passes through expansion depends only on its model.
pub proof fn lemma_passes_model(
    t: Spanned<PreprocessingToken>,
    macros: Map<Seq<char>, MacroView>,
    exp: Set<Seq<char>>,
    respect_defined: bool,
)
    ensures
        passes_through(t, macros, exp, respect_defined) == passes_view(spanned_view(t), macros, exp, respect_defined),
{
}

/// The model of a sequence without its last token.
pub proof fn lemma_tokens_view_drop_last(x: Seq<Spanned<PreprocessingToken>>)
    requires
        x.len() > 0,
    ensures
        tokens_view(x.drop_last()) == tokens_view(x).drop_last(),
        tokens_view(x).last() == spanned_view(x.last()),
{
    lemma_tokens_view(x);
    lemma_tokens_view(x.drop_last());
    assert(tokens_view(x.drop_last()) =~= tokens_view(x).drop_last());
}

/// Cutting at commas commutes with taking models.
pub proof fn lemma_comma_groups_view(x: Seq<Spanned<PreprocessingToken>>)
    ensures
        comma_groups(x).len() == comma_groups_view(tokens_view(x)).len(),
        forall|i: int|
            0 <= i < comma_groups(x).len() ==> tokens_view(#[trigger] comma_groups(x)[i]) == comma_groups_view(
                tokens_view(x),
            )[i],
    decreases x.len(),
{
    if x.len() == 0 {
        lemma_tokens_view(x);
        lemma_tokens_view(Seq::<Spanned<PreprocessingToken>>::empty());
        assert(tokens_view(x) =~= Seq::<Spanned<TokenView>>::empty());
    } else {
        let d = x.drop_last();
        let l = x.last();
        lemma_comma_groups_view(d);
        lemma_comma_groups_nonempty(d);
        lemma_tokens_view_drop_last(x);
        let gs = comma_groups(d);
        let vs = comma_groups_view(tokens_view(d));
        assert(tokens_view(x).drop_last() == tokens_view(d));
        assert(is_comma(l) == is_comma_view(spanned_view(l)));
        if is_comma(l) {
            lemma_tokens_view(Seq::<Spanned<PreprocessingToken>>::empty());
            assert forall|i: int| 0 <= i < gs.len() + 1 implies tokens_view(#[trigger] gs.push(seq![])[i]) == vs.push(
                seq![],
            )[i] by {
                if i == gs.len() {
                    assert(tokens_view(Seq::<Spanned<PreprocessingToken>>::empty()) =~= Seq::<Spanned<TokenView>>::empty());
                }
            }
        } else {
            let n = gs.len() - 1;
            lemma_tokens_view_push(gs[n], l);
            assert forall|i: int| 0 <= i < gs.len() implies tokens_view(#[trigger] gs.update(n, gs[n].push(l))[i])
                == vs.update(n, vs[n].push(spanned_view(l)))[i] by {}
        }
    }
}

/// Splitting the arguments commutes with taking models.
pub proof fn lemma_split_view(x: Seq<Spanned<PreprocessingToken>>)
    ensures
        split_spec(x).len() == split_view(tokens_view(x)).len(),
        forall|i: int|
            0 <= i < split_spec(x).len() ==> tokens_view(#[trigger] split_spec(x)[i]) == split_view(tokens_view(x))[i],
{
    lemma_tokens_view(x);
    lemma_comma_groups_view(x);
}

/// Looking a parameter up among (name, argument) pairs made from `params` in order finds
/// the last parameter of that name.
pub proof fn lemma_arg_index_params(map: Seq<(String, MacroArgument)>, params: Seq<Seq<char>>, name: Seq<char>)
    requires
        map.len() == params.len(),
        forall|i: int| 0 <= i < map.len() ==> (#[trigger] map[i]).0@ == params[i],
    ensures
        arg_index(map, name) == last_param(params, name),
    decreases map.len(),
{
    if map.len() > 0 {
        lemma_arg_index_params(map.drop_last(), params.drop_last(), name);
    }
}

/// The expanded tokens of arguments whose models are `gs` are the tokens of `gs`.
pub proof fn lemma_flat_expanded(extras: Seq<MacroArgument>, gs: Seq<Seq<Spanned<TokenView>>>)
    requires
        extras.len() == gs.len(),
        forall|j: int| 0 <= j < extras.len() ==> tokens_view((#[trigger] extras[j]).expanded@) == gs[j],
    ensures
        flat_expanded(extras) == flatten_view(gs),
    decreases extras.len(),
{
    if extras.len() > 0 {
        lemma_flat_expanded(extras.drop_last(), gs.drop_last());
    }
}

/// Substitution over tokens agrees with substitution over their models, for arguments whose
/// expansions are the groups `groups` (named ones first, then the extra ones).
pub proof fn lemma_substituted_view(
    rs: Seq<Spanned<PreprocessingToken>>,
    map: Seq<(String, MacroArgument)>,
    extras: Seq<MacroArgument>,
    params: Seq<Seq<char>>,
    groups: Seq<Seq<Spanned<TokenView>>>,
    variadic: bool,
)
    requires
        map.len() == params.len(),
        params.len() <= groups.len(),
        extras.len() == groups.len() - params.len(),
        forall|i: int|
            0 <= i < map.len() ==> (#[trigger] map[i]).0@ == params[i] && tokens_view(map[i].1.expanded@) == groups[i],
        forall|j: int| 0 <= j < extras.len() ==> tokens_view((#[trigger] extras[j]).expanded@) == groups[params.len() + j],
    ensures
        substituted(rs, map, variadic, extras) == subst_view(tokens_view(rs), params, groups, variadic),
    decreases rs.len(),
{
    lemma_tokens_view(rs);
    if rs.len() > 0 {
        lemma_substituted_view(rs.drop_first(), map, extras, params, groups, variadic);
        assert(tokens_view(rs).drop_first() == tokens_view(rs.drop_first()));
        let t = rs[0];
        let tv = tokens_view(rs);
        assert(tv[0] == spanned_view(t));
        let here_exec = if t.value is Identifier && arg_index(map, t.value->Identifier_0@) is Some {
            tokens_view(map[arg_index(map, t.value->Identifier_0@)->0].1.expanded@)
        } else if t.value is Identifier && variadic && t.value->Identifier_0@ == "__VA_ARGS__"@ {
            crate::substitute::va_view(extras)
        } else {
            seq![spanned_view(t)]
        };
        let v = tv[0];
        let here_view = if v.value is Identifier && last_param(params, v.value->Identifier_0) is Some {
            groups[last_param(params, v.value->Identifier_0)->0]
        } else if v.value is Identifier && variadic && v.value->Identifier_0 == "__VA_ARGS__"@ {
            interspersed(flatten_view(groups.skip(params.len() as int)))
        } else {
            seq![v]
        };
        if t.value is Identifier {
            assert(v.value is Identifier && v.value->Identifier_0 == t.value->Identifier_0@);
            lemma_arg_index_params(map, params, t.value->Identifier_0@);
            crate::substitute::lemma_arg_index(map, t.value->Identifier_0@);
            let gs = groups.skip(params.len() as int);
            assert forall|j: int| 0 <= j < extras.len() implies tokens_view((#[trigger] extras[j]).expanded@) == gs[j] by {}
            lemma_flat_expanded(extras, gs);
        } else {
            assert(!(v.value is Identifier));
        }
        assert(here_exec == here_view);
        assert(substituted(rs, map, variadic, extras) == here_exec + substituted(rs.drop_first(), map, variadic, extras));
        assert(subst_view(tv, params, groups, variadic) == here_view + subst_view(tv.drop_first(), params, groups, variadic));
    }
}

} // verus!

//! What expansion makes of a queue of trees in which every macro call expands to tokens
//! that expand no further: directives, `#ifdef`/`#ifndef`/`#else` groups and macro calls,
//! with the set of macros being expanded kept by the markers.
use crate::ast::{lemma_tokens_view, spanned_view, tokens_view, PreprocessingToken, TokenView};
use crate::errors::{PResult, Report};
use crate::expand::{
    call_follows, call_group, collect_group, condition_value, control_line_effect, defined_result, flag_token, is_marker, leaf_tokens,
    first_significant, next_significant, object_output, passes_through, relocated, skip_markers, without_whitespace_view, MacroView,
};
use crate::ast::Punctuator;
use crate::spanned::Location;
use crate::invocation::{fn_replaced, fn_written, split_view};
use crate::tree::{group_body, group_opposition, is_control_line};
use crate::substitute::subst_steps;
use crate::invocation::{lemma_passes_model, passes_view};
use crate::spanned::Spanned;
use crate::tree::{InternalLeaf, TokenTree};
use vstd::prelude::*;

verus! {

/// Whether `t` names an object-like macro that is not being expanded and whose replacement
/// list is well formed.
pub open spec fn object_name(
    t: Spanned<TokenView>,
    macros: Map<Seq<char>, MacroView>,
    exp: Set<Seq<char>>,
    respect_defined: bool,
    file_id: usize,
) -> bool {
    &&& t.value is Identifier
    &&& macros.contains_key(t.value->Identifier_0)
    &&& macros[t.value->Identifier_0] is Object
    &&& !exp.contains(t.value->Identifier_0)
    &&& !(respect_defined && t.value->Identifier_0 == "defined"@)
    &&& object_output(macros[t.value->Identifier_0]->Object_0, file_id) is Some
}

/// The replacement of the object-like macro named by `t`, moved to the place of `t`.
pub open spec fn moved_output(t: Spanned<TokenView>, macros: Map<Seq<char>, MacroView>, file_id: usize) -> Seq<
    Spanned<TokenView>,
> {
    relocated(object_output(macros[t.value->Identifier_0]->Object_0, file_id)->0, t.location)
}

/// Whether `t` names an object-like macro that is not being expanded and whose replacement
/// comes out of expansion plainly (see `plain_ok`).
pub open spec fn object_call(
    t: Spanned<PreprocessingToken>,
    macros: Map<Seq<char>, MacroView>,
    exp: Set<Seq<char>>,
    respect_defined: bool,
    file_id: usize,
) -> bool {
    &&& object_name(spanned_view(t), macros, exp, respect_defined, file_id)
    &&& plain_ok(call_tokens(t, macros, file_id), macros, exp.insert(t.value->Identifier_0@), respect_defined, file_id)
}

/// The tokens that an object-like macro call at `t` is replaced by.
pub open spec fn call_tokens(t: Spanned<PreprocessingToken>, macros: Map<Seq<char>, MacroView>, file_id: usize) -> Seq<
    Spanned<TokenView>,
> {
    relocated(object_output(macros[t.value->Identifier_0@]->Object_0, file_id)->0, t.location)
}

/// The size of a tree: one for itself and the sizes of the trees of its body and opposition.
pub open spec fn tree_weight(t: TokenTree) -> nat
    decreases t, 1int,
{
    match t {
        TokenTree::If { body, opposition, .. } => {
            proof {
                assert(decreases_to!(t => body));
                assert(decreases_to!(body => body@));
            }
            1 + trees_weight(body@) + tree_weight(*opposition)
        },
        TokenTree::IfDef { body, opposition, .. } => {
            proof {
                assert(decreases_to!(t => body));
                assert(decreases_to!(body => body@));
            }
            1 + trees_weight(body@) + tree_weight(*opposition)
        },
        TokenTree::IfNDef { body, opposition, .. } => {
            proof {
                assert(decreases_to!(t => body));
                assert(decreases_to!(body => body@));
            }
            1 + trees_weight(body@) + tree_weight(*opposition)
        },
        TokenTree::Elif { body, opposition, .. } => {
            proof {
                assert(decreases_to!(t => body));
                assert(decreases_to!(body => body@));
            }
            1 + trees_weight(body@) + tree_weight(*opposition)
        },
        TokenTree::Else { body, opposition } => {
            proof {
                assert(decreases_to!(t => body));
                assert(decreases_to!(body => body@));
            }
            1 + trees_weight(body@) + tree_weight(*opposition)
        },
        _ => 1,
    }
}

/// The sum of the sizes of some trees.
pub open spec fn trees_weight(s: Seq<TokenTree>) -> nat
    decreases s, 0int,
{
    if s.len() == 0 {
        0
    } else {
        tree_weight(s[0]) + trees_weight(s.drop_first())
    }
}

pub proof fn lemma_trees_weight_add(a: Seq<TokenTree>, b: Seq<TokenTree>)
    ensures
        trees_weight(a + b) == trees_weight(a) + trees_weight(b),
    decreases a.len(),
{
    if a.len() == 0 {
        assert(a + b =~= b);
    } else {
        lemma_trees_weight_add(a.drop_first(), b);
        assert((a + b).drop_first() =~= a.drop_first() + b);
        assert((a + b)[0] == a[0]);
    }
}

/// Taking a tree off the front of a queue makes the queue smaller; so does putting the
/// body, or the opposition, of a conditional group in the place of the group.
pub proof fn lemma_group_weight(q: Seq<TokenTree>)
    requires
        q.len() > 0,
    ensures
        trees_weight(q.drop_first()) < trees_weight(q),
        (q[0] is If || q[0] is IfDef || q[0] is IfNDef || q[0] is Elif || q[0] is Else) ==> {
            &&& trees_weight(group_body(q[0]) + q.drop_first()) < trees_weight(q)
            &&& trees_weight(seq![group_opposition(q[0])] + q.drop_first()) < trees_weight(q)
        },
{
    assert(trees_weight(q) == tree_weight(q[0]) + trees_weight(q.drop_first()));
    assert(tree_weight(q[0]) >= 1);
    lemma_trees_weight_add(group_body(q[0]), q.drop_first());
    lemma_trees_weight_add(seq![group_opposition(q[0])], q.drop_first());
    let one = seq![group_opposition(q[0])];
    assert(one.drop_first() =~= Seq::<TokenTree>::empty());
    assert(trees_weight(Seq::<TokenTree>::empty()) == 0);
    assert(trees_weight(one) == tree_weight(one[0]) + trees_weight(one.drop_first()));
}

/// What the condition of an `#if` or `#elif` group comes to when its tokens are plain (see
/// `plain_ok`) and its evaluation has one outcome, a truth value; `None` otherwise.
pub open spec fn cond_value(condition: Seq<Spanned<PreprocessingToken>>, macros: Map<Seq<char>, MacroView>, file_id: usize) -> Option<bool> {
    let vs = plain_out(tokens_view(condition), macros, Set::<Seq<char>>::empty(), true, file_id);
    if (forall|i: int| 0 <= i < condition.len() ==> !is_control_line(#[trigger] condition[i])) && plain_ok(
        tokens_view(condition),
        macros,
        Set::<Seq<char>>::empty(),
        true,
        file_id,
    ) && exists|c: bool|
        condition_value(vs, Ok(c)) && forall|b: PResult<bool>| #[trigger] condition_value(vs, b) ==> b == Ok::<bool, Report>(c) {
        Some(
            choose|c: bool|
                condition_value(vs, Ok(c)) && forall|b: PResult<bool>| #[trigger] condition_value(vs, b) ==> b == Ok::<bool, Report>(c),
        )
    } else {
        None
    }
}

/// What `cond_value` gives holds of the condition.
pub proof fn lemma_cond_value(condition: Seq<Spanned<PreprocessingToken>>, macros: Map<Seq<char>, MacroView>, file_id: usize)
    ensures
        cond_value(condition, macros, file_id) matches Some(c) ==> {
            &&& forall|i: int| 0 <= i < condition.len() ==> !is_control_line(#[trigger] condition[i])
            &&& plain_ok(tokens_view(condition), macros, Set::<Seq<char>>::empty(), true, file_id)
            &&& forall|b: PResult<bool>|
                #[trigger] condition_value(plain_out(tokens_view(condition), macros, Set::<Seq<char>>::empty(), true, file_id), b) ==> b == Ok::<
                    bool,
                    Report,
                >(c)
        },
{
}

/// Whether `t` names a function-like macro that is not being expanded.
pub open spec fn fn_name(
    t: Spanned<PreprocessingToken>,
    macros: Map<Seq<char>, MacroView>,
    exp: Set<Seq<char>>,
    respect_defined: bool,
) -> bool {
    &&& t.value is Identifier
    &&& macros.contains_key(t.value->Identifier_0@)
    &&& macros[t.value->Identifier_0@] is Function
    &&& !exp.contains(t.value->Identifier_0@)
    &&& !(respect_defined && t.value->Identifier_0@ == "defined"@)
}

/// What a call of the function-like macro named by `t`, whose arguments follow in `rest`,
/// expands to when its arguments are plain (see `plain_ok`) and so is its result: the
/// tokens of the result (before they are moved into place and expanded again), the
/// trees after the call, the set of macros being expanded there and the number of steps
/// that the expansion of the arguments takes; `None` otherwise.
pub open spec fn call_output(
    t: Spanned<PreprocessingToken>,
    rest: Seq<TokenTree>,
    macros: Map<Seq<char>, MacroView>,
    exp: Set<Seq<char>>,
    respect_defined: bool,
    file_id: usize,
) -> Option<(Seq<Spanned<TokenView>>, Seq<TokenTree>, Set<Seq<char>>, nat)> {
    let name = t.value->Identifier_0@;
    let params = macros[name]->Function_0;
    let variadic = macros[name]->Function_1;
    let replacement = macros[name]->Function_2;
    match call_group(rest, exp) {
        None => None,
        Some((inner, rest2, e2)) => {
            let groups = split_view(inner);
            if groups.len() < params.len() || (!variadic && groups.len() > params.len()) {
                None
            } else if !args_ok(groups, macros, e2, file_id) || e2.contains(name) || trees_weight(rest2) > trees_weight(
                rest,
            ) {
                None
            } else {
                match subst_steps(
                    without_whitespace_view(replacement),
                    false,
                    seq![],
                    false,
                    seq![],
                    |x: Spanned<TokenView>| fn_written(x, params, groups),
                    |x: Spanned<TokenView>| fn_replaced(x, params, expanded_args(groups, macros, e2, file_id), variadic),
                    file_id,
                ) {
                    Some(o) => if plain_ok(relocated(o, t.location), macros, e2.insert(name), respect_defined, file_id) {
                        Some((o, rest2, e2, args_need(groups, macros, e2, file_id)))
                    } else {
                        None
                    },
                    None => None,
                }
            }
        },
    }
}

/// Whether the front tree `x` of a queue, followed by `rest`, is a call of a function-like
/// macro.
pub open spec fn is_call(
    x: TokenTree,
    rest: Seq<TokenTree>,
    macros: Map<Seq<char>, MacroView>,
    exp: Set<Seq<char>>,
    respect_defined: bool,
) -> bool {
    x is PreprocessorToken && fn_name(x->PreprocessorToken_0, macros, exp, respect_defined) && call_follows(rest)
}

/// Whether a tree that is no marker expands plainly.
pub open spec fn item_ok(
    x: TokenTree,
    macros: Map<Seq<char>, MacroView>,
    exp: Set<Seq<char>>,
    respect_defined: bool,
    file_id: usize,
) -> bool {
    match x {
        TokenTree::Internal(InternalLeaf::MacroExpansion(m, toks)) => !exp.contains(m@) && plain_ok(
            tokens_view(toks@),
            macros,
            exp.insert(m@),
            respect_defined,
            file_id,
        ),
        TokenTree::PreprocessorToken(t) => passes_through(t, macros, exp, respect_defined) || object_call(
            t,
            macros,
            exp,
            respect_defined,
            file_id,
        ) || fn_name(t, macros, exp, respect_defined),
        _ => false,
    }
}

/// What a tree that is no marker and expands plainly comes out as.
pub open spec fn item_out(
    x: TokenTree,
    macros: Map<Seq<char>, MacroView>,
    exp: Set<Seq<char>>,
    respect_defined: bool,
    file_id: usize,
) -> Seq<Spanned<TokenView>> {
    match x {
        TokenTree::Internal(InternalLeaf::MacroExpansion(m, toks)) => plain_out(
            tokens_view(toks@),
            macros,
            exp.insert(m@),
            respect_defined,
            file_id,
        ),
        TokenTree::PreprocessorToken(t) => if object_call(t, macros, exp, respect_defined, file_id) {
            plain_out(call_tokens(t, macros, file_id), macros, exp.insert(t.value->Identifier_0@), respect_defined, file_id)
        } else {
            seq![spanned_view(t)]
        },
        _ => seq![],
    }
}

/// How many expansion steps a tree that is no marker and expands plainly takes.
pub open spec fn item_need(
    x: TokenTree,
    macros: Map<Seq<char>, MacroView>,
    exp: Set<Seq<char>>,
    respect_defined: bool,
    file_id: usize,
) -> nat {
    match x {
        TokenTree::Internal(InternalLeaf::MacroExpansion(m, toks)) => 1 + plain_need(
            tokens_view(toks@),
            macros,
            exp.insert(m@),
            respect_defined,
            file_id,
        ),
        TokenTree::PreprocessorToken(t) => if object_call(t, macros, exp, respect_defined, file_id) {
            2 + plain_need(
                call_tokens(t, macros, file_id),
                macros,
                exp.insert(t.value->Identifier_0@),
                respect_defined,
                file_id,
            )
        } else {
            1
        },
        _ => 0,
    }
}

/// Whether every tree of the queue `q` expands plainly: the markers keep the set `exp` of
/// macros being expanded, `#define` and `#undef` change the macros, a conditional group
/// stands for the branch that the macros in effect, or its condition (see `cond_value`),
/// select, and `#endif` for nothing; every token comes out as it is, is `defined` with its
/// operand where it is in force, or is a call of an object-like macro, or of a
/// function-like macro with plain arguments, whose result expands plainly (see `plain_ok`).
pub open spec fn queue_ok(
    q: Seq<TokenTree>,
    macros: Map<Seq<char>, MacroView>,
    exp: Set<Seq<char>>,
    respect_defined: bool,
    file_id: usize,
) -> bool
    decreases trees_weight(q),
{
    if q.len() == 0 {
        true
    } else {
        proof {
            lemma_group_weight(q);
        }
        match q[0] {
            TokenTree::Internal(InternalLeaf::BeginExpandingMacro(m)) => queue_ok(
                q.drop_first(),
                macros,
                exp.insert(m@),
                respect_defined,
                file_id,
            ),
            TokenTree::Internal(InternalLeaf::FinishExpandingMacro(m)) => queue_ok(
                q.drop_first(),
                macros,
                exp.remove(m@),
                respect_defined,
                file_id,
            ),
            TokenTree::If { condition, body, opposition } => match cond_value(condition@, macros, file_id) {
                Some(c) => if c {
                    queue_ok(body@ + q.drop_first(), macros, exp, respect_defined, file_id)
                } else {
                    queue_ok(seq![*opposition] + q.drop_first(), macros, exp, respect_defined, file_id)
                },
                None => false,
            },
            TokenTree::Elif { condition, body, opposition } => match cond_value(condition@, macros, file_id) {
                Some(c) => if c {
                    queue_ok(body@ + q.drop_first(), macros, exp, respect_defined, file_id)
                } else {
                    queue_ok(seq![*opposition] + q.drop_first(), macros, exp, respect_defined, file_id)
                },
                None => false,
            },
            TokenTree::IfDef { macro_name, body, opposition } => {
                if macros.contains_key(macro_name@) {
                    queue_ok(body@ + q.drop_first(), macros, exp, respect_defined, file_id)
                } else {
                    queue_ok(seq![*opposition] + q.drop_first(), macros, exp, respect_defined, file_id)
                }
            },
            TokenTree::IfNDef { macro_name, body, opposition } => {
                if !macros.contains_key(macro_name@) {
                    queue_ok(body@ + q.drop_first(), macros, exp, respect_defined, file_id)
                } else {
                    queue_ok(seq![*opposition] + q.drop_first(), macros, exp, respect_defined, file_id)
                }
            },
            TokenTree::Else { body, opposition } => {
                queue_ok(body@ + q.drop_first(), macros, exp, respect_defined, file_id)
            },
            TokenTree::Endif => queue_ok(q.drop_first(), macros, exp, respect_defined, file_id),
            TokenTree::Directive(c) => match control_line_effect(c, macros) {
                Some(m2) => queue_ok(q.drop_first(), m2, exp, respect_defined, file_id),
                None => false,
            },
            x => if x is PreprocessorToken && is_defined_op(spanned_view(x->PreprocessorToken_0), respect_defined) {
                match defined_result(q.drop_first(), exp, macros, x->PreprocessorToken_0.location) {
                    Some((v, rest2, e2)) => trees_weight(rest2) < trees_weight(q) && queue_ok(
                        rest2,
                        macros,
                        e2,
                        respect_defined,
                        file_id,
                    ),
                    None => false,
                }
            } else if is_call(x, q.drop_first(), macros, exp, respect_defined) {
                match call_output(x->PreprocessorToken_0, q.drop_first(), macros, exp, respect_defined, file_id) {
                    Some((o, rest2, e2, n)) => queue_ok(rest2, macros, e2, respect_defined, file_id),
                    None => false,
                }
            } else {
                item_ok(x, macros, exp, respect_defined, file_id) && queue_ok(
                    q.drop_first(),
                    macros,
                    exp,
                    respect_defined,
                    file_id,
                )
            },
        }
    }
}

/// What the queue `q` comes out as when it expands plainly (see `queue_ok`): each call of a
/// macro replaced by what its result, moved to the place of its name, comes out as, every
/// other token as it is, the directives and the branches not taken giving nothing.
pub open spec fn queue_out(
    q: Seq<TokenTree>,
    macros: Map<Seq<char>, MacroView>,
    exp: Set<Seq<char>>,
    respect_defined: bool,
    file_id: usize,
) -> Seq<Spanned<TokenView>>
    decreases trees_weight(q),
{
    if q.len() == 0 {
        seq![]
    } else {
        proof {
            lemma_group_weight(q);
        }
        match q[0] {
            TokenTree::Internal(InternalLeaf::BeginExpandingMacro(m)) => queue_out(
                q.drop_first(),
                macros,
                exp.insert(m@),
                respect_defined,
                file_id,
            ),
            TokenTree::Internal(InternalLeaf::FinishExpandingMacro(m)) => queue_out(
                q.drop_first(),
                macros,
                exp.remove(m@),
                respect_defined,
                file_id,
            ),
            TokenTree::If { condition, body, opposition } => match cond_value(condition@, macros, file_id) {
                Some(c) => if c {
                    queue_out(body@ + q.drop_first(), macros, exp, respect_defined, file_id)
                } else {
                    queue_out(seq![*opposition] + q.drop_first(), macros, exp, respect_defined, file_id)
                },
                None => seq![],
            },
            TokenTree::Elif { condition, body, opposition } => match cond_value(condition@, macros, file_id) {
                Some(c) => if c {
                    queue_out(body@ + q.drop_first(), macros, exp, respect_defined, file_id)
                } else {
                    queue_out(seq![*opposition] + q.drop_first(), macros, exp, respect_defined, file_id)
                },
                None => seq![],
            },
            TokenTree::IfDef { macro_name, body, opposition } => {
                if macros.contains_key(macro_name@) {
                    queue_out(body@ + q.drop_first(), macros, exp, respect_defined, file_id)
                } else {
                    queue_out(seq![*opposition] + q.drop_first(), macros, exp, respect_defined, file_id)
                }
            },
            TokenTree::IfNDef { macro_name, body, opposition } => {
                if !macros.contains_key(macro_name@) {
                    queue_out(body@ + q.drop_first(), macros, exp, respect_defined, file_id)
                } else {
                    queue_out(seq![*opposition] + q.drop_first(), macros, exp, respect_defined, file_id)
                }
            },
            TokenTree::Else { body, opposition } => {
                queue_out(body@ + q.drop_first(), macros, exp, respect_defined, file_id)
            },
            TokenTree::Endif => queue_out(q.drop_first(), macros, exp, respect_defined, file_id),
            TokenTree::Directive(c) => match control_line_effect(c, macros) {
                Some(m2) => queue_out(q.drop_first(), m2, exp, respect_defined, file_id),
                None => seq![],
            },
            x => if x is PreprocessorToken && is_defined_op(spanned_view(x->PreprocessorToken_0), respect_defined) {
                match defined_result(q.drop_first(), exp, macros, x->PreprocessorToken_0.location) {
                    Some((v, rest2, e2)) => if trees_weight(rest2) < trees_weight(q) {
                        v + queue_out(rest2, macros, e2, respect_defined, file_id)
                    } else {
                        seq![]
                    },
                    None => seq![],
                }
            } else if is_call(x, q.drop_first(), macros, exp, respect_defined) {
                match call_output(x->PreprocessorToken_0, q.drop_first(), macros, exp, respect_defined, file_id) {
                    Some((o, rest2, e2, n)) => plain_out(
                        relocated(o, x->PreprocessorToken_0.location),
                        macros,
                        e2.insert(x->PreprocessorToken_0.value->Identifier_0@),
                        respect_defined,
                        file_id,
                    ) + queue_out(rest2, macros, e2, respect_defined, file_id),
                    None => seq![],
                }
            } else {
                item_out(x, macros, exp, respect_defined, file_id) + queue_out(
                    q.drop_first(),
                    macros,
                    exp,
                    respect_defined,
                    file_id,
                )
            },
        }
    }
}

/// How many expansion steps the queue `q` takes when it expands plainly.
pub open spec fn queue_need(
    q: Seq<TokenTree>,
    macros: Map<Seq<char>, MacroView>,
    exp: Set<Seq<char>>,
    respect_defined: bool,
    file_id: usize,
) -> nat
    decreases trees_weight(q),
{
    if q.len() == 0 {
        0
    } else {
        proof {
            lemma_group_weight(q);
        }
        match q[0] {
            TokenTree::Internal(InternalLeaf::BeginExpandingMacro(m)) => queue_need(
                q.drop_first(),
                macros,
                exp.insert(m@),
                respect_defined,
                file_id,
            ),
            TokenTree::Internal(InternalLeaf::FinishExpandingMacro(m)) => queue_need(
                q.drop_first(),
                macros,
                exp.remove(m@),
                respect_defined,
                file_id,
            ),
            TokenTree::If { condition, body, opposition } => match cond_value(condition@, macros, file_id) {
                Some(c) => 2 + plain_need(tokens_view(condition@), macros, Set::<Seq<char>>::empty(), true, file_id) + if c {
                    queue_need(body@ + q.drop_first(), macros, exp, respect_defined, file_id)
                } else {
                    queue_need(seq![*opposition] + q.drop_first(), macros, exp, respect_defined, file_id)
                },
                None => 0,
            },
            TokenTree::Elif { condition, body, opposition } => match cond_value(condition@, macros, file_id) {
                Some(c) => 2 + plain_need(tokens_view(condition@), macros, Set::<Seq<char>>::empty(), true, file_id) + if c {
                    queue_need(body@ + q.drop_first(), macros, exp, respect_defined, file_id)
                } else {
                    queue_need(seq![*opposition] + q.drop_first(), macros, exp, respect_defined, file_id)
                },
                None => 0,
            },
            TokenTree::IfDef { macro_name, body, opposition } => {
                1 + if macros.contains_key(macro_name@) {
                    queue_need(body@ + q.drop_first(), macros, exp, respect_defined, file_id)
                } else {
                    queue_need(seq![*opposition] + q.drop_first(), macros, exp, respect_defined, file_id)
                }
            },
            TokenTree::IfNDef { macro_name, body, opposition } => {
                1 + if !macros.contains_key(macro_name@) {
                    queue_need(body@ + q.drop_first(), macros, exp, respect_defined, file_id)
                } else {
                    queue_need(seq![*opposition] + q.drop_first(), macros, exp, respect_defined, file_id)
                }
            },
            TokenTree::Else { body, opposition } => {
                1 + queue_need(body@ + q.drop_first(), macros, exp, respect_defined, file_id)
            },
            TokenTree::Endif => 1 + queue_need(q.drop_first(), macros, exp, respect_defined, file_id),
            TokenTree::Directive(c) => match control_line_effect(c, macros) {
                Some(m2) => 1 + queue_need(q.drop_first(), m2, exp, respect_defined, file_id),
                None => 0,
            },
            x => if x is PreprocessorToken && is_defined_op(spanned_view(x->PreprocessorToken_0), respect_defined) {
                match defined_result(q.drop_first(), exp, macros, x->PreprocessorToken_0.location) {
                    Some((v, rest2, e2)) => if trees_weight(rest2) < trees_weight(q) {
                        1 + queue_need(rest2, macros, e2, respect_defined, file_id)
                    } else {
                        0
                    },
                    None => 0,
                }
            } else if is_call(x, q.drop_first(), macros, exp, respect_defined) {
                match call_output(x->PreprocessorToken_0, q.drop_first(), macros, exp, respect_defined, file_id) {
                    Some((o, rest2, e2, n)) => 2 + plain_need(
                        relocated(o, x->PreprocessorToken_0.location),
                        macros,
                        e2.insert(x->PreprocessorToken_0.value->Identifier_0@),
                        respect_defined,
                        file_id,
                    ) + n + queue_need(rest2, macros, e2, respect_defined, file_id),
                    None => 0,
                }
            } else {
                item_need(x, macros, exp, respect_defined, file_id) + queue_need(
                    q.drop_first(),
                    macros,
                    exp,
                    respect_defined,
                    file_id,
                )
            },
        }
    }
}

/// Taking the markers at the front of a queue keeps what it comes out as.
pub proof fn lemma_skip_markers_queue(
    q: Seq<TokenTree>,
    macros: Map<Seq<char>, MacroView>,
    exp: Set<Seq<char>>,
    respect_defined: bool,
    file_id: usize,
)
    ensures
        ({
            let (tt, rest, e) = skip_markers(q, exp);
            match tt {
                None => queue_out(q, macros, exp, respect_defined, file_id) == Seq::<Spanned<TokenView>>::empty()
                    && queue_need(q, macros, exp, respect_defined, file_id) == 0,
                Some(x) => {
                    &&& !is_marker(x)
                    &&& queue_ok(q, macros, exp, respect_defined, file_id) == queue_ok(
                        seq![x] + rest,
                        macros,
                        e,
                        respect_defined,
                        file_id,
                    )
                    &&& queue_out(q, macros, exp, respect_defined, file_id) == queue_out(
                        seq![x] + rest,
                        macros,
                        e,
                        respect_defined,
                        file_id,
                    )
                    &&& queue_need(q, macros, exp, respect_defined, file_id) == queue_need(
                        seq![x] + rest,
                        macros,
                        e,
                        respect_defined,
                        file_id,
                    )
                },
            }
        }),
    decreases q.len(),
{
    if q.len() > 0 {
        match q[0] {
            TokenTree::Internal(InternalLeaf::BeginExpandingMacro(m)) => {
                lemma_skip_markers_queue(q.drop_first(), macros, exp.insert(m@), respect_defined, file_id);
            },
            TokenTree::Internal(InternalLeaf::FinishExpandingMacro(m)) => {
                lemma_skip_markers_queue(q.drop_first(), macros, exp.remove(m@), respect_defined, file_id);
            },
            _ => {
                assert(seq![q[0]] + q.drop_first() =~= q);
            },
        }
    }
}

/// A queue with a tree that is no marker in front, which is no call of a function-like macro.
pub proof fn lemma_queue_front(
    x: TokenTree,
    rest: Seq<TokenTree>,
    macros: Map<Seq<char>, MacroView>,
    exp: Set<Seq<char>>,
    respect_defined: bool,
    file_id: usize,
)
    requires
        !is_marker(x),
    ensures
        (seq![x] + rest)[0] == x,
        x is Directive ==> {
            &&& queue_ok(seq![x] + rest, macros, exp, respect_defined, file_id) == match control_line_effect(
                x->Directive_0,
                macros,
            ) {
                Some(m2) => queue_ok(rest, m2, exp, respect_defined, file_id),
                None => false,
            }
            &&& queue_out(seq![x] + rest, macros, exp, respect_defined, file_id) == match control_line_effect(
                x->Directive_0,
                macros,
            ) {
                Some(m2) => queue_out(rest, m2, exp, respect_defined, file_id),
                None => Seq::<Spanned<TokenView>>::empty(),
            }
            &&& queue_need(seq![x] + rest, macros, exp, respect_defined, file_id) == match control_line_effect(
                x->Directive_0,
                macros,
            ) {
                Some(m2) => 1 + queue_need(rest, m2, exp, respect_defined, file_id),
                None => 0,
            }
        },
        (seq![x] + rest).drop_first() == rest,
        x is PreprocessorToken && is_defined_op(spanned_view(x->PreprocessorToken_0), respect_defined) ==> match defined_result(
            rest,
            exp,
            macros,
            x->PreprocessorToken_0.location,
        ) {
            Some((v, rest2, e2)) => {
                &&& queue_ok(seq![x] + rest, macros, exp, respect_defined, file_id) == (trees_weight(rest2) < trees_weight(
                    seq![x] + rest,
                ) && queue_ok(rest2, macros, e2, respect_defined, file_id))
                &&& trees_weight(rest2) < trees_weight(seq![x] + rest) ==> {
                    &&& queue_out(seq![x] + rest, macros, exp, respect_defined, file_id) == v + queue_out(
                        rest2,
                        macros,
                        e2,
                        respect_defined,
                        file_id,
                    )
                    &&& queue_need(seq![x] + rest, macros, exp, respect_defined, file_id) == 1 + queue_need(
                        rest2,
                        macros,
                        e2,
                        respect_defined,
                        file_id,
                    )
                }
            },
            None => !queue_ok(seq![x] + rest, macros, exp, respect_defined, file_id),
        },
        !is_call(x, rest, macros, exp, respect_defined) && (x is PreprocessorToken || x is Internal) && !(x is PreprocessorToken
            && is_defined_op(spanned_view(x->PreprocessorToken_0), respect_defined)) ==> {
            &&& queue_ok(seq![x] + rest, macros, exp, respect_defined, file_id) == (item_ok(
                x,
                macros,
                exp,
                respect_defined,
                file_id,
            ) && queue_ok(rest, macros, exp, respect_defined, file_id))
            &&& queue_out(seq![x] + rest, macros, exp, respect_defined, file_id) == item_out(
                x,
                macros,
                exp,
                respect_defined,
                file_id,
            ) + queue_out(rest, macros, exp, respect_defined, file_id)
            &&& queue_need(seq![x] + rest, macros, exp, respect_defined, file_id) == item_need(
                x,
                macros,
                exp,
                respect_defined,
                file_id,
            ) + queue_need(rest, macros, exp, respect_defined, file_id)
        },
{
    let q = seq![x] + rest;
    assert(q[0] == x);
    assert(q.drop_first() =~= rest);
}

/// The leaves of some tokens.
pub open spec fn leaf_trees(l: Seq<Spanned<PreprocessingToken>>) -> Seq<TokenTree> {
    l.map_values(|x: Spanned<PreprocessingToken>| TokenTree::PreprocessorToken(x))
}

/// Leaves weigh one each.
pub proof fn lemma_leaf_trees_weight(l: Seq<Spanned<PreprocessingToken>>)
    ensures
        trees_weight(leaf_trees(l)) == l.len(),
    decreases l.len(),
{
    if l.len() > 0 {
        lemma_leaf_trees_weight(l.drop_first());
        assert(leaf_trees(l).drop_first() =~= leaf_trees(l.drop_first()));
        assert(leaf_trees(l)[0] == TokenTree::PreprocessorToken(l[0]));
        assert(tree_weight(leaf_trees(l)[0]) == 1);
        assert(trees_weight(leaf_trees(l)) == tree_weight(leaf_trees(l)[0]) + trees_weight(leaf_trees(l).drop_first()));
    }
}

/// Among leaves, the first tree that is no whitespace is the first such token, and
/// skipping to it passes over no marker.
proof fn lemma_solid_leaves(l: Seq<Spanned<PreprocessingToken>>, t: Seq<TokenTree>, exp: Set<Seq<char>>, n: int)
    requires
        0 <= n <= l.len(),
        l.len() <= usize::MAX,
    ensures
        first_solid(tokens_view(l), n) matches Some(i) ==> {
            let q = leaf_trees(l) + t;
            &&& first_significant(q, n) == Some(i)
            &&& next_significant(q.skip(n), exp) == (Some(q[i]), q.skip(i + 1), exp)
        },
    decreases l.len() - n,
{
    let q = leaf_trees(l) + t;
    let tv = tokens_view(l);
    lemma_tokens_view(l);
    if n < l.len() {
        assert(q[n] == TokenTree::PreprocessorToken(l[n]));
        assert(tv[n] == spanned_view(l[n]));
        assert(q.skip(n)[0] == q[n]);
        assert(q.skip(n).drop_first() =~= q.skip(n + 1));
        if tv[n].value is Whitespace {
            assert(l[n].value is Whitespace);
            lemma_solid_leaves(l, t, exp, n + 1);
        } else {
            assert(!(l[n].value is Whitespace));
        }
    }
}

/// `defined` followed by leaves reads them as `defined_view` reads their tokens.
pub proof fn lemma_defined_leaves(
    l: Seq<Spanned<PreprocessingToken>>,
    t: Seq<TokenTree>,
    exp: Set<Seq<char>>,
    macros: Map<Seq<char>, MacroView>,
    location: Location,
)
    requires
        l.len() <= usize::MAX,
    ensures
        defined_view(tokens_view(l), macros, location) matches Some((f, k)) ==> defined_result(
            leaf_trees(l) + t,
            exp,
            macros,
            location,
        ) == Some((seq![f], leaf_trees(l.skip(k as int)) + t, exp)),
{
    let q = leaf_trees(l) + t;
    let tv = tokens_view(l);
    lemma_tokens_view(l);
    lemma_first_solid(tv, 0);
    if let Some(i) = first_solid(tv, 0) {
        lemma_solid_leaves(l, t, exp, 0);
        assert(q.skip(0) =~= q);
        assert(q[i] == TokenTree::PreprocessorToken(l[i]));
        assert(tv[i] == spanned_view(l[i]));
        if defined_view(tv, macros, location) is Some {
            let (f, k) = defined_view(tv, macros, location)->0;
            if tv[i].value is Identifier {
                assert(l[i].value is Identifier);
                assert(q.skip(i + 1) =~= leaf_trees(l.skip(k as int)) + t);
            } else {
                assert(l[i].value == PreprocessingToken::Punctuator(Punctuator::LeftParen));
                let r = q.skip(i + 1);
                assert(r[0] == TokenTree::PreprocessorToken(l[i + 1]));
                assert(tv[i + 1] == spanned_view(l[i + 1]));
                assert(tv[i + 2] == spanned_view(l[i + 2]));
                assert(l[i + 1].value is Identifier);
                assert(l[i + 2].value == PreprocessingToken::Punctuator(Punctuator::RightParen));
                let r1 = r.drop_first();
                assert(r1[0] == TokenTree::PreprocessorToken(l[i + 2]));
                assert(r1.drop_first() =~= leaf_trees(l.skip(k as int)) + t);
                assert(collect_group(r1, exp, l[i], Punctuator::RightParen, seq![spanned_view(l[i + 1])]) == Some(
                    (seq![spanned_view(l[i + 1])], l[i + 2].location, r1.drop_first(), exp),
                ));
                assert(collect_group(r, exp, l[i], Punctuator::RightParen, seq![]) == Some(
                    (seq![spanned_view(l[i + 1])], l[i + 2].location, r1.drop_first(), exp),
                ));
            }
        }
    }
}

/// The leaves of tokens that expand plainly with calls nested at most `depth` deep, in
/// front of a queue.
#[verifier::rlimit(60)]
pub proof fn lemma_leaves_queue(
    l: Seq<Spanned<PreprocessingToken>>,
    t: Seq<TokenTree>,
    macros: Map<Seq<char>, MacroView>,
    exp: Set<Seq<char>>,
    respect_defined: bool,
    file_id: usize,
    depth: nat,
)
    requires
        nested_ok(tokens_view(l), macros, exp, respect_defined, file_id, depth),
        depth <= macros.dom().len(),
        l.len() <= usize::MAX,
    ensures
        ({
            let q = l.map_values(|x: Spanned<PreprocessingToken>| TokenTree::PreprocessorToken(x)) + t;
            &&& queue_ok(q, macros, exp, respect_defined, file_id) == queue_ok(t, macros, exp, respect_defined, file_id)
            &&& queue_out(q, macros, exp, respect_defined, file_id) == nested_out(
                tokens_view(l),
                macros,
                exp,
                respect_defined,
                file_id,
                depth,
            ) + queue_out(t, macros, exp, respect_defined, file_id)
            &&& queue_need(q, macros, exp, respect_defined, file_id) == nested_need(
                tokens_view(l),
                macros,
                exp,
                respect_defined,
                file_id,
                depth,
            ) + queue_need(t, macros, exp, respect_defined, file_id)
        }),
    decreases l.len(),
{
    let q = l.map_values(|x: Spanned<PreprocessingToken>| TokenTree::PreprocessorToken(x)) + t;
    let tv = tokens_view(l);
    lemma_tokens_view(l);
    if l.len() == 0 {
        assert(q =~= t);
        assert(nested_out(tv, macros, exp, respect_defined, file_id, depth) + queue_out(
            t,
            macros,
            exp,
            respect_defined,
            file_id,
        ) =~= queue_out(t, macros, exp, respect_defined, file_id));
    } else if is_defined_op(tv[0], respect_defined) {
        let x = l[0];
        let l2 = l.drop_first();
        lemma_tokens_view(l2);
        assert(tokens_view(l2) =~= tv.drop_first());
        assert(tv[0] == spanned_view(x));
        lemma_defined_view_len(tv.drop_first(), macros, x.location);
        let (f, k) = defined_view(tv.drop_first(), macros, x.location)->0;
        let l3 = l2.skip(k as int);
        lemma_tokens_view(l3);
        assert(tokens_view(l3) =~= tv.drop_first().skip(k as int));
        lemma_defined_leaves(l2, t, exp, macros, x.location);
        let q2 = leaf_trees(l2) + t;
        assert(q.drop_first() =~= q2);
        assert(q[0] == TokenTree::PreprocessorToken(x));
        assert(seq![q[0]] + q2 =~= q);
        lemma_queue_front(q[0], q2, macros, exp, respect_defined, file_id);
        let rest2 = leaf_trees(l3) + t;
        lemma_leaf_trees_weight(l3);
        lemma_leaf_trees_weight(l);
        lemma_trees_weight_add(leaf_trees(l3), t);
        lemma_trees_weight_add(leaf_trees(l), t);
        assert(leaf_trees(l) + t =~= q);
        assert(trees_weight(rest2) < trees_weight(q));
        lemma_leaves_queue(l3, t, macros, exp, respect_defined, file_id, depth);
        assert(nested_out(tv, macros, exp, respect_defined, file_id, depth) + queue_out(t, macros, exp, respect_defined, file_id)
            =~= seq![f] + (nested_out(tokens_view(l3), macros, exp, respect_defined, file_id, depth) + queue_out(
            t,
            macros,
            exp,
            respect_defined,
            file_id,
        )));
    } else {
        let l2 = l.drop_first();
        lemma_tokens_view(l2);
        assert(tokens_view(l2) =~= tv.drop_first());
        lemma_leaves_queue(l2, t, macros, exp, respect_defined, file_id, depth);
        let q2 = l2.map_values(|x: Spanned<PreprocessingToken>| TokenTree::PreprocessorToken(x)) + t;
        assert(q.drop_first() =~= q2);
        let x = l[0];
        assert(q[0] == TokenTree::PreprocessorToken(x));
        assert(tv[0] == spanned_view(x));
        lemma_passes_model(x, macros, exp, respect_defined);
        assert(seq![q[0]] + q2 =~= q);
        lemma_queue_front(q[0], q2, macros, exp, respect_defined, file_id);
        if !passes_view(tv[0], macros, exp, respect_defined) {
            let id = x.value->Identifier_0@;
            assert(call_tokens(x, macros, file_id) == moved_output(tv[0], macros, file_id));
            lemma_nested_depth(
                moved_output(tv[0], macros, file_id),
                macros,
                exp.insert(id),
                respect_defined,
                file_id,
                (depth - 1) as nat,
                macros.dom().len(),
            );
            assert(object_call(x, macros, exp, respect_defined, file_id));
        }
        assert(nested_out(tv, macros, exp, respect_defined, file_id, depth) + queue_out(t, macros, exp, respect_defined, file_id)
            =~= item_out(q[0], macros, exp, respect_defined, file_id) + (nested_out(
            tv.drop_first(),
            macros,
            exp,
            respect_defined,
            file_id,
            depth,
        ) + queue_out(t, macros, exp, respect_defined, file_id)));
    }
}

/// The index of the first token of `ts` from index `i` on that is no whitespace.
pub open spec fn first_solid(ts: Seq<Spanned<TokenView>>, i: int) -> Option<int>
    decreases ts.len() - i,
{
    if i < 0 || i >= ts.len() {
        None
    } else if ts[i].value is Whitespace {
        first_solid(ts, i + 1)
    } else {
        Some(i)
    }
}

/// What the operator `defined` at `location`, followed by the tokens `ts`, comes out as,
/// and how many of those tokens it takes: `1` or `0` as the identifier after it, alone or
/// right inside parentheses, is a macro; `None` when anything else follows.
pub open spec fn defined_view(
    ts: Seq<Spanned<TokenView>>,
    macros: Map<Seq<char>, MacroView>,
    location: Location,
) -> Option<(Spanned<TokenView>, nat)> {
    match first_solid(ts, 0) {
        Some(i) => match ts[i].value {
            TokenView::Identifier(id) => Some((flag_token(macros.contains_key(id), location), (i + 1) as nat)),
            TokenView::Punctuator(Punctuator::LeftParen) => if i + 2 < ts.len() && ts[i + 1].value is Identifier
                && ts[i + 2].value == TokenView::Punctuator(Punctuator::RightParen) {
                Some((flag_token(macros.contains_key(ts[i + 1].value->Identifier_0), location), (i + 3) as nat))
            } else {
                None
            },
            _ => None,
        },
        None => None,
    }
}

/// Whether `t` is the operator `defined`, where it is in force.
pub open spec fn is_defined_op(t: Spanned<TokenView>, respect_defined: bool) -> bool {
    respect_defined && t.value == TokenView::Identifier("defined"@)
}

proof fn lemma_first_solid(ts: Seq<Spanned<TokenView>>, i: int)
    ensures
        first_solid(ts, i) matches Some(j) ==> i <= j < ts.len() && 0 <= j,
    decreases ts.len() - i,
{
    if 0 <= i < ts.len() && ts[i].value is Whitespace {
        lemma_first_solid(ts, i + 1);
    }
}

/// `defined` takes no more tokens than follow it.
pub proof fn lemma_defined_view_len(ts: Seq<Spanned<TokenView>>, macros: Map<Seq<char>, MacroView>, location: Location)
    ensures
        defined_view(ts, macros, location) matches Some((_, k)) ==> 1 <= k <= ts.len(),
{
    lemma_first_solid(ts, 0);
}

/// Whether every token of `ts`, where the macros in `exp` are being expanded, either comes
/// out of expansion as it is, or is a call of an object-like macro whose replacement, moved
/// to the place of the call, does so in turn, with calls nested at most `depth` deep, or is
/// the operator `defined` where it is in force, with what it reads (see `defined_view`).
pub open spec fn nested_ok(
    ts: Seq<Spanned<TokenView>>,
    macros: Map<Seq<char>, MacroView>,
    exp: Set<Seq<char>>,
    respect_defined: bool,
    file_id: usize,
    depth: nat,
) -> bool
    decreases depth, ts.len(),
{
    if ts.len() == 0 {
        true
    } else if is_defined_op(ts[0], respect_defined) {
        proof {
            lemma_defined_view_len(ts.drop_first(), macros, ts[0].location);
        }
        match defined_view(ts.drop_first(), macros, ts[0].location) {
            Some((f, k)) => nested_ok(ts.drop_first().skip(k as int), macros, exp, respect_defined, file_id, depth),
            None => false,
        }
    } else {
        let t = ts[0];
        let head = if passes_view(t, macros, exp, respect_defined) {
            true
        } else if object_name(t, macros, exp, respect_defined, file_id) && depth > 0 {
            nested_ok(
                moved_output(t, macros, file_id),
                macros,
                exp.insert(t.value->Identifier_0),
                respect_defined,
                file_id,
                (depth - 1) as nat,
            )
        } else {
            false
        };
        head && nested_ok(ts.drop_first(), macros, exp, respect_defined, file_id, depth)
    }
}

/// What tokens that satisfy `nested_ok` come out as: each call of an object-like macro
/// replaced by what its replacement, moved to the place of the call, comes out as; each
/// `defined` and what it reads by `1` or `0`; every other token as it is.
pub open spec fn nested_out(
    ts: Seq<Spanned<TokenView>>,
    macros: Map<Seq<char>, MacroView>,
    exp: Set<Seq<char>>,
    respect_defined: bool,
    file_id: usize,
    depth: nat,
) -> Seq<Spanned<TokenView>>
    decreases depth, ts.len(),
{
    if ts.len() == 0 {
        seq![]
    } else if is_defined_op(ts[0], respect_defined) {
        proof {
            lemma_defined_view_len(ts.drop_first(), macros, ts[0].location);
        }
        match defined_view(ts.drop_first(), macros, ts[0].location) {
            Some((f, k)) => seq![f] + nested_out(ts.drop_first().skip(k as int), macros, exp, respect_defined, file_id, depth),
            None => seq![],
        }
    } else {
        let t = ts[0];
        let head = if !passes_view(t, macros, exp, respect_defined) && object_name(t, macros, exp, respect_defined, file_id)
            && depth > 0 {
            nested_out(
                moved_output(t, macros, file_id),
                macros,
                exp.insert(t.value->Identifier_0),
                respect_defined,
                file_id,
                (depth - 1) as nat,
            )
        } else {
            seq![t]
        };
        head + nested_out(ts.drop_first(), macros, exp, respect_defined, file_id, depth)
    }
}

/// How many expansion steps tokens that satisfy `nested_ok` take.
pub open spec fn nested_need(
    ts: Seq<Spanned<TokenView>>,
    macros: Map<Seq<char>, MacroView>,
    exp: Set<Seq<char>>,
    respect_defined: bool,
    file_id: usize,
    depth: nat,
) -> nat
    decreases depth, ts.len(),
{
    if ts.len() == 0 {
        0
    } else if is_defined_op(ts[0], respect_defined) {
        proof {
            lemma_defined_view_len(ts.drop_first(), macros, ts[0].location);
        }
        match defined_view(ts.drop_first(), macros, ts[0].location) {
            Some((f, k)) => 1 + nested_need(ts.drop_first().skip(k as int), macros, exp, respect_defined, file_id, depth),
            None => 0,
        }
    } else {
        let t = ts[0];
        let head = if !passes_view(t, macros, exp, respect_defined) && object_name(t, macros, exp, respect_defined, file_id)
            && depth > 0 {
            2 + nested_need(
                moved_output(t, macros, file_id),
                macros,
                exp.insert(t.value->Identifier_0),
                respect_defined,
                file_id,
                (depth - 1) as nat,
            )
        } else {
            1
        };
        head + nested_need(ts.drop_first(), macros, exp, respect_defined, file_id, depth)
    }
}

/// Whether `ts` expands plainly where the macros in `exp` are being expanded: every token
/// comes out as it is, is `defined` with its operand, or is a call of an object-like macro
/// whose replacement expands plainly in turn (see `nested_ok`). Calls cannot nest deeper than there are macros, since
/// a macro is not expanded again inside its own expansion.
pub open spec fn plain_ok(
    ts: Seq<Spanned<TokenView>>,
    macros: Map<Seq<char>, MacroView>,
    exp: Set<Seq<char>>,
    respect_defined: bool,
    file_id: usize,
) -> bool {
    nested_ok(ts, macros, exp, respect_defined, file_id, macros.dom().len())
}

/// What tokens that expand plainly come out as.
pub open spec fn plain_out(
    ts: Seq<Spanned<TokenView>>,
    macros: Map<Seq<char>, MacroView>,
    exp: Set<Seq<char>>,
    respect_defined: bool,
    file_id: usize,
) -> Seq<Spanned<TokenView>> {
    nested_out(ts, macros, exp, respect_defined, file_id, macros.dom().len())
}

/// How many expansion steps tokens that expand plainly take.
pub open spec fn plain_need(
    ts: Seq<Spanned<TokenView>>,
    macros: Map<Seq<char>, MacroView>,
    exp: Set<Seq<char>>,
    respect_defined: bool,
    file_id: usize,
) -> nat {
    nested_need(ts, macros, exp, respect_defined, file_id, macros.dom().len())
}

/// Tokens that expand plainly with calls nested at most `a` deep do so with any deeper
/// bound, with the same result and steps.
pub proof fn lemma_nested_depth(
    ts: Seq<Spanned<TokenView>>,
    macros: Map<Seq<char>, MacroView>,
    exp: Set<Seq<char>>,
    respect_defined: bool,
    file_id: usize,
    a: nat,
    b: nat,
)
    requires
        nested_ok(ts, macros, exp, respect_defined, file_id, a),
        a <= b,
    ensures
        nested_ok(ts, macros, exp, respect_defined, file_id, b),
        nested_out(ts, macros, exp, respect_defined, file_id, b) == nested_out(ts, macros, exp, respect_defined, file_id, a),
        nested_need(ts, macros, exp, respect_defined, file_id, b) == nested_need(
            ts,
            macros,
            exp,
            respect_defined,
            file_id,
            a,
        ),
    decreases a, ts.len(),
{
    if ts.len() > 0 {
        let t = ts[0];
        if is_defined_op(t, respect_defined) {
            lemma_defined_view_len(ts.drop_first(), macros, t.location);
            let (_, k) = defined_view(ts.drop_first(), macros, t.location)->0;
            lemma_nested_depth(ts.drop_first().skip(k as int), macros, exp, respect_defined, file_id, a, b);
        } else {
            if !passes_view(t, macros, exp, respect_defined) {
                lemma_nested_depth(
                    moved_output(t, macros, file_id),
                    macros,
                    exp.insert(t.value->Identifier_0),
                    respect_defined,
                    file_id,
                    (a - 1) as nat,
                    (b - 1) as nat,
                );
            }
            lemma_nested_depth(ts.drop_first(), macros, exp, respect_defined, file_id, a, b);
        }
    }
}

/// The arguments of a call, each as it comes out of its own expansion when it is plain
/// (see `plain_ok`).
pub open spec fn expanded_args(
    groups: Seq<Seq<Spanned<TokenView>>>,
    macros: Map<Seq<char>, MacroView>,
    exp: Set<Seq<char>>,
    file_id: usize,
) -> Seq<Seq<Spanned<TokenView>>> {
    Seq::new(groups.len(), |i: int| plain_out(groups[i], macros, exp, false, file_id))
}

/// Whether every argument of a call is plain and its expansion takes fewer than `budget`
/// steps.
pub open spec fn args_plain(
    groups: Seq<Seq<Spanned<TokenView>>>,
    macros: Map<Seq<char>, MacroView>,
    exp: Set<Seq<char>>,
    file_id: usize,
    budget: int,
) -> bool {
    forall|i: int|
        0 <= i < groups.len() ==> plain_ok(#[trigger] groups[i], macros, exp, false, file_id) && budget > plain_need(
            groups[i],
            macros,
            exp,
            false,
            file_id,
        )
}

/// Whether every argument of a call is plain.
pub open spec fn args_ok(
    groups: Seq<Seq<Spanned<TokenView>>>,
    macros: Map<Seq<char>, MacroView>,
    exp: Set<Seq<char>>,
    file_id: usize,
) -> bool {
    forall|i: int| 0 <= i < groups.len() ==> plain_ok(#[trigger] groups[i], macros, exp, false, file_id)
}

/// How many expansion steps the arguments of a call take together.
pub open spec fn args_need(
    groups: Seq<Seq<Spanned<TokenView>>>,
    macros: Map<Seq<char>, MacroView>,
    exp: Set<Seq<char>>,
    file_id: usize,
) -> nat
    decreases groups.len(),
{
    if groups.len() == 0 {
        0
    } else {
        args_need(groups.drop_last(), macros, exp, file_id) + plain_need(groups.last(), macros, exp, false, file_id)
    }
}

/// Plain arguments whose steps together are fewer than `budget` each take fewer.
pub proof fn lemma_args_need(
    groups: Seq<Seq<Spanned<TokenView>>>,
    macros: Map<Seq<char>, MacroView>,
    exp: Set<Seq<char>>,
    file_id: usize,
    budget: int,
)
    requires
        args_ok(groups, macros, exp, file_id),
        budget > args_need(groups, macros, exp, file_id),
    ensures
        args_plain(groups, macros, exp, file_id, budget),
    decreases groups.len(),
{
    if groups.len() > 0 {
        let g2 = groups.drop_last();
        assert forall|i: int| 0 <= i < g2.len() implies plain_ok(#[trigger] g2[i], macros, exp, false, file_id) by {
            assert(g2[i] == groups[i]);
        }
        lemma_args_need(g2, macros, exp, file_id, budget);
        assert forall|i: int| 0 <= i < groups.len() implies plain_ok(#[trigger] groups[i], macros, exp, false, file_id)
            && budget > plain_need(groups[i], macros, exp, false, file_id) by {
            if i < g2.len() {
                assert(g2[i] == groups[i]);
            }
        }
    }
}

/// A queue of token leaves expands as its tokens do when they are plain.
pub proof fn lemma_leaf_queue(
    q: Seq<TokenTree>,
    macros: Map<Seq<char>, MacroView>,
    exp: Set<Seq<char>>,
    respect_defined: bool,
    file_id: usize,
)
    requires
        forall|i: int| 0 <= i < q.len() ==> (#[trigger] q[i]) is PreprocessorToken,
        q.len() <= usize::MAX,
        plain_ok(tokens_view(leaf_tokens(q)), macros, exp, respect_defined, file_id),
    ensures
        queue_ok(q, macros, exp, respect_defined, file_id),
        queue_out(q, macros, exp, respect_defined, file_id) == plain_out(
            tokens_view(leaf_tokens(q)),
            macros,
            exp,
            respect_defined,
            file_id,
        ),
        queue_need(q, macros, exp, respect_defined, file_id) == plain_need(
            tokens_view(leaf_tokens(q)),
            macros,
            exp,
            respect_defined,
            file_id,
        ),
{
    let l = leaf_tokens(q);
    let e = Seq::<TokenTree>::empty();
    assert(l.map_values(|x: Spanned<PreprocessingToken>| TokenTree::PreprocessorToken(x)) + e =~= q);
    lemma_leaves_queue(l, e, macros, exp, respect_defined, file_id, macros.dom().len());
    let o = plain_out(tokens_view(l), macros, exp, respect_defined, file_id);
    assert(o + Seq::<Spanned<TokenView>>::empty() =~= o);
}

/// Without macros, tokens that are no delimited groups come out as they are, one step each.
pub proof fn lemma_plain_without_macros(ts: Seq<Spanned<TokenView>>, file_id: usize)
    requires
        forall|i: int| 0 <= i < ts.len() ==> !((#[trigger] ts[i]).value is Delimited),
    ensures
        plain_ok(ts, Map::empty(), Set::<Seq<char>>::empty(), false, file_id),
        plain_out(ts, Map::empty(), Set::<Seq<char>>::empty(), false, file_id) == ts,
        plain_need(ts, Map::empty(), Set::<Seq<char>>::empty(), false, file_id) == ts.len(),
    decreases ts.len(),
{
    if ts.len() > 0 {
        assert forall|i: int| 0 <= i < ts.drop_first().len() implies !((#[trigger] ts.drop_first()[i]).value is Delimited) by {
            assert(ts.drop_first()[i] == ts[i + 1]);
        }
        lemma_plain_without_macros(ts.drop_first(), file_id);
        assert(seq![ts[0]] + ts.drop_first() =~= ts);
    }
}

} // verus!

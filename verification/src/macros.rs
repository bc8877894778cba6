//! Macro parameter lists and the splitting of macro arguments at commas.
use crate::ast::{PreprocessingToken, Punctuator};
use crate::errors::{simple_error, DiagnosticSeverity, PResult};
use crate::expand::Expander;
use crate::spanned::{Location, Spanned};
use vstd::prelude::*;

verus! {

/// The parameters of a function-like macro, and whether it takes `...`.
#[derive(Debug)]
pub struct MacroParameterList {
    pub parameters: Vec<String>,
    pub variadic: bool,
}

impl MacroParameterList {
    /// A copy of this list, equal to it.
    pub fn duplicate(&self) -> (r: Self)
        ensures
            r.variadic == self.variadic,
            r.parameters@.len() == self.parameters@.len(),
            forall|i: int| 0 <= i < r.parameters@.len() ==> #[trigger] r.parameters@[i]@ == self.parameters@[i]@,
    {
        let mut parameters: Vec<String> = Vec::new();
        let mut i: usize = 0;
        while i < self.parameters.len()
            invariant
                i <= self.parameters@.len(),
                parameters@.len() == i,
                forall|j: int| 0 <= j < i ==> #[trigger] parameters@[j]@ == self.parameters@[j]@,
            decreases self.parameters@.len() - i,
        {
            parameters.push(self.parameters[i].clone());
            i += 1;
        }
        MacroParameterList { parameters, variadic: self.variadic }
    }
}

pub open spec fn is_comma(t: Spanned<PreprocessingToken>) -> bool {
    t.value == PreprocessingToken::Punctuator(Punctuator::Comma)
}

/// `s` cut at every comma into the groups between them (commas dropped); a sequence
/// without commas is one group.
pub open spec fn comma_groups(s: Seq<Spanned<PreprocessingToken>>) -> Seq<Seq<Spanned<PreprocessingToken>>>
    decreases s.len(),
{
    if s.len() == 0 {
        seq![seq![]]
    } else {
        let groups = comma_groups(s.drop_last());
        if is_comma(s.last()) {
            groups.push(seq![])
        } else {
            groups.update(groups.len() - 1, groups.last().push(s.last()))
        }
    }
}

pub proof fn lemma_comma_groups_nonempty(s: Seq<Spanned<PreprocessingToken>>)
    ensures
        comma_groups(s).len() >= 1,
    decreases s.len(),
{
    if s.len() > 0 {
        lemma_comma_groups_nonempty(s.drop_last());
    }
}

/// The arguments that the tokens `s` of a macro invocation hold: none for no tokens,
/// else the comma groups.
pub open spec fn split_spec(s: Seq<Spanned<PreprocessingToken>>) -> Seq<Seq<Spanned<PreprocessingToken>>> {
    if s.len() == 0 {
        seq![]
    } else {
        comma_groups(s)
    }
}

/// The tokens of a sequence of groups, one group after the other.
pub open spec fn flatten_groups(gs: Seq<Seq<Spanned<PreprocessingToken>>>) -> Seq<Spanned<PreprocessingToken>>
    decreases gs.len(),
{
    if gs.len() == 0 {
        seq![]
    } else {
        flatten_groups(gs.drop_last()) + gs.last()
    }
}

/// How many commas `s` holds.
pub open spec fn count_commas(s: Seq<Spanned<PreprocessingToken>>) -> nat
    decreases s.len(),
{
    if s.len() == 0 {
        0
    } else {
        count_commas(s.drop_last()) + if is_comma(s.last()) { 1nat } else { 0nat }
    }
}

/// Splitting at commas keeps every other token, in order, and makes one more group than
/// there are commas.
pub proof fn law_split_keeps_tokens(s: Seq<Spanned<PreprocessingToken>>)
    ensures
        comma_groups(s).len() == count_commas(s) + 1,
        flatten_groups(comma_groups(s)) == s.filter(|t: Spanned<PreprocessingToken>| !is_comma(t)),
    decreases s.len(),
{
    if s.len() == 0 {
        let one: Seq<Seq<Spanned<PreprocessingToken>>> = seq![Seq::<Spanned<PreprocessingToken>>::empty()];
        assert(one.drop_last() =~= Seq::<Seq<Spanned<PreprocessingToken>>>::empty());
        assert(flatten_groups(one.drop_last()) =~= Seq::<Spanned<PreprocessingToken>>::empty());
        assert(flatten_groups(one) =~= Seq::<Spanned<PreprocessingToken>>::empty());
        assert(comma_groups(s) == one);
        s.lemma_filter_len(|t: Spanned<PreprocessingToken>| !is_comma(t));
        assert(s.filter(|t: Spanned<PreprocessingToken>| !is_comma(t)) =~= Seq::<Spanned<PreprocessingToken>>::empty());
    } else {
        let d = s.drop_last();
        let l = s.last();
        law_split_keeps_tokens(d);
        lemma_comma_groups_nonempty(d);
        assert(d.push(l) =~= s);
        d.lemma_filter_push(l, |t: Spanned<PreprocessingToken>| !is_comma(t));
        let gs = comma_groups(d);
        if is_comma(l) {
            assert(gs.push(seq![]).drop_last() =~= gs);
            assert(flatten_groups(gs.push(seq![])) =~= flatten_groups(gs));
        } else {
            let n = gs.len() - 1;
            let up = gs.update(n, gs.last().push(l));
            assert(up.drop_last() =~= gs.drop_last());
            assert(flatten_groups(up) =~= flatten_groups(gs).push(l));
        }
    }
}

/// The groups `gs` one after the other, with the separators `seps` between them in order.
pub open spec fn joined(gs: Seq<Seq<Spanned<PreprocessingToken>>>, seps: Seq<Spanned<PreprocessingToken>>) -> Seq<
    Spanned<PreprocessingToken>,
>
    decreases gs.len(),
{
    if gs.len() == 0 {
        seq![]
    } else if gs.len() == 1 {
        gs[0]
    } else {
        joined(gs.drop_last(), seps.drop_last()) + seq![seps.last()] + gs.last()
    }
}

/// Putting the commas back between the groups that splitting at commas makes gives the
/// tokens that were split.
pub proof fn law_split_rejoins(s: Seq<Spanned<PreprocessingToken>>)
    ensures
        joined(comma_groups(s), s.filter(|t: Spanned<PreprocessingToken>| is_comma(t))) == s,
    decreases s.len(),
{
    if s.len() == 0 {
        assert(comma_groups(s) =~= seq![Seq::<Spanned<PreprocessingToken>>::empty()]);
        assert(joined(comma_groups(s), s.filter(|t: Spanned<PreprocessingToken>| is_comma(t))) =~= s);
    } else {
        let d = s.drop_last();
        let l = s.last();
        law_split_rejoins(d);
        lemma_comma_groups_nonempty(d);
        assert(d.push(l) =~= s);
        d.lemma_filter_push(l, |t: Spanned<PreprocessingToken>| is_comma(t));
        let gs = comma_groups(d);
        let seps = d.filter(|t: Spanned<PreprocessingToken>| is_comma(t));
        if is_comma(l) {
            let g2 = gs.push(seq![]);
            assert(g2.drop_last() =~= gs);
            assert(seps.push(l).drop_last() =~= seps);
            assert(joined(g2, seps.push(l)) =~= joined(gs, seps) + seq![l] + Seq::<Spanned<PreprocessingToken>>::empty());
            assert(joined(gs, seps) + seq![l] + Seq::<Spanned<PreprocessingToken>>::empty() =~= s);
        } else {
            let n = gs.len() - 1;
            let up = gs.update(n, gs.last().push(l));
            if gs.len() == 1 {
                assert(joined(up, seps) == up[0]);
                assert(up[0] =~= s);
            } else {
                assert(up.drop_last() =~= gs.drop_last());
                assert(joined(up, seps) =~= joined(gs.drop_last(), seps.drop_last()) + seq![seps.last()] + gs.last().push(l));
                assert(joined(gs, seps) =~= joined(gs.drop_last(), seps.drop_last()) + seq![seps.last()] + gs.last());
                assert(joined(up, seps) =~= s);
            }
        }
    }
}

/// The values behind a sequence of references.
pub open spec fn derefs(s: Seq<&Spanned<PreprocessingToken>>) -> Seq<Spanned<PreprocessingToken>> {
    s.map_values(|t: &Spanned<PreprocessingToken>| *t)
}

/// Whether two locations are the same.
pub fn same_location(a: &Location, b: &Location) -> (r: bool)
    ensures
        r == (a == b),
{
    a.range.start == b.range.start && a.range.end == b.range.end && a.file_id == b.file_id
}

pub open spec fn is_dots(t: Spanned<PreprocessingToken>) -> bool {
    t.value == PreprocessingToken::Punctuator(Punctuator::DotDotDot)
}

/// The tokens of `s` that are not whitespace.
pub open spec fn non_whitespace(s: Seq<Spanned<PreprocessingToken>>) -> Seq<Spanned<PreprocessingToken>> {
    s.filter(|t: Spanned<PreprocessingToken>| !(t.value is Whitespace))
}

/// The parameter names (and whether `...` ends the list) that the groups from index `i`
/// on give: each group one identifier, except that the last may be `...` or an
/// identifier followed by `...`; `None` when a group is anything else.
pub open spec fn params_from(groups: Seq<Seq<Spanned<PreprocessingToken>>>, i: int) -> Option<(Seq<Seq<char>>, bool)>
    decreases groups.len() - i,
{
    if i >= groups.len() || i < 0 {
        Some((seq![], false))
    } else {
        let g = groups[i];
        let last = i == groups.len() - 1;
        let attached = last && g.len() == 2 && is_dots(g[1]);
        if g.len() == 0 {
            None
        } else if g.len() > 1 && !attached {
            None
        } else if is_dots(g[0]) {
            if last {
                Some((seq![], true))
            } else {
                None
            }
        } else if g[0].value is Identifier {
            match params_from(groups, i + 1) {
                Some((names, variadic)) => Some((seq![g[0].value->Identifier_0@] + names, variadic || attached)),
                None => None,
            }
        } else {
            None
        }
    }
}

/// The message of the error that the groups from index `i` on give, when `params_from`
/// finds no parameter list there: that of the first group that is not a parameter.
pub open spec fn params_error(groups: Seq<Seq<Spanned<PreprocessingToken>>>, i: int) -> Seq<char>
    decreases groups.len() - i,
{
    if i >= groups.len() || i < 0 {
        seq![]
    } else {
        let g = groups[i];
        let last = i == groups.len() - 1;
        let attached = last && g.len() == 2 && is_dots(g[1]);
        if g.len() == 0 {
            "empty parameter?"@
        } else if g.len() > 1 && !attached {
            "Parameters must be either an identifier, or `...`."@
        } else if is_dots(g[0]) {
            if last {
                seq![]
            } else {
                "Variadic arguments must be the final argument."@
            }
        } else if g[0].value is Identifier {
            params_error(groups, i + 1)
        } else {
            "Parameters must be either an identifier, or `...`."@
        }
    }
}

/// The views of a sequence of strings.
pub open spec fn string_views(s: Seq<String>) -> Seq<Seq<char>> {
    s.map_values(|x: String| x@)
}

impl Expander {
    /// Reads the parameter list of a function-like macro definition: a group opened by `(`
    /// whose tokens, whitespace aside, are identifiers separated by commas, the last of
    /// which may be `...` or be followed by `...`.
    #[verifier::loop_isolation(false)]
    pub fn parse_parameters(&self, parameter_token: Spanned<PreprocessingToken>) -> (r: PResult<MacroParameterList>)
        ensures
            !(parameter_token.value is Delimited) ==> r is Err,
            parameter_token.value matches PreprocessingToken::Delimited(d) ==> {
                if !(d.opener.value == PreprocessingToken::Punctuator(Punctuator::LeftParen)) {
                    r is Err
                } else {
                    match params_from(split_spec(non_whitespace(d.inner_tokens@)), 0) {
                        Some((names, variadic)) => r matches Ok(list) && string_views(list.parameters@)
                            == names && list.variadic == variadic,
                        None => r matches Err(e) && e.severity == DiagnosticSeverity::Error && e.labels@.len() == 1
                            && e.labels@[0].message@ == params_error(split_spec(non_whitespace(d.inner_tokens@)), 0),
                    }
                }
            },
    {
        let d = match parameter_token.value {
            PreprocessingToken::Delimited(d) => d,
            _ => {
                return Err(
                    simple_error(
                        &parameter_token.location,
                        "internal compiler error: tried to parse parameters but its not a delimited",
                    ),
                );
            },
        };
        match &d.opener.value {
            PreprocessingToken::Punctuator(Punctuator::LeftParen) => {},
            _ => {
                return Err(
                    simple_error(
                        &parameter_token.location,
                        "internal compiler error: tried to parse parameters but its opener is not (",
                    ),
                );
            },
        }
        let ghost inner = d.inner_tokens@;
        let mut no_whitespace: Vec<&Spanned<PreprocessingToken>> = Vec::new();
        let mut k: usize = 0;
        while k < d.inner_tokens.len()
            invariant
                k <= inner.len(),
                d.inner_tokens@ == inner,
                derefs(no_whitespace@) == non_whitespace(inner.take(k as int)),
            decreases inner.len() - k,
        {
            proof {
                assert(inner.take(k + 1int).drop_last() =~= inner.take(k as int));
                reveal(Seq::filter);
            }
            let ghost before = no_whitespace@;
            match &d.inner_tokens[k].value {
                PreprocessingToken::Whitespace(_) => {},
                _ => {
                    no_whitespace.push(&d.inner_tokens[k]);
                },
            }
            assert(derefs(no_whitespace@) =~= non_whitespace(inner.take(k + 1int)));
            k += 1;
        }
        assert(inner.take(inner.len() as int) =~= inner);
        let parameters = self.split_delimited(no_whitespace.as_slice());
        let ghost groups = split_spec(derefs(no_whitespace@));
        let n = parameters.len();
        let mut names: Vec<String> = Vec::new();
        let mut is_variadic = false;
        let mut idx: usize = 0;
        while idx < n
            invariant
                n == parameters@.len(),
                n == groups.len(),
                idx <= n,
                forall|i: int| 0 <= i < n ==> derefs(#[trigger] parameters@[i].value@) == groups[i],
                params_from(groups, 0) == match params_from(groups, idx as int) {
                    Some((ns, v)) => Some((string_views(names@) + ns, is_variadic || v)),
                    None => None::<(Seq<Seq<char>>, bool)>,
                },
                params_error(groups, 0) == params_error(groups, idx as int),
            decreases n - idx,
        {
            let group = &parameters[idx].value;
            let ghost g = groups[idx as int];
            assert(derefs(group@) == g);
            if group.len() == 0 {
                return Err(simple_error(&parameters[idx].location, "empty parameter?"));
            }
            let mut len = group.len();
            let last = idx == n - 1;
            // If the `...` is attached to a parameter, remove it and set the parameter list as variadic
            if last && len == 2 {
                assert(group@[1] == g[1]);
                match &group[1].value {
                    PreprocessingToken::Punctuator(Punctuator::DotDotDot) => {
                        is_variadic = true;
                        len = 1;
                    },
                    _ => {},
                }
            }
            if len > 1 {
                return Err(
                    simple_error(&parameters[idx].location, "Parameters must be either an identifier, or `...`."),
                );
            }
            assert(group@[0] == g[0]);
            match &group[0].value {
                PreprocessingToken::Punctuator(Punctuator::DotDotDot) => {
                    //if ... is not the last parameter, raise an error
                    if !last {
                        return Err(
                            simple_error(&parameters[idx].location, "Variadic arguments must be the final argument."),
                        );
                    }
                    proof {
                        assert(string_views(names@) + Seq::<Seq<char>>::empty() =~= string_views(names@));
                    }
                    return Ok(MacroParameterList { parameters: names, variadic: true });
                },
                PreprocessingToken::Identifier(identifier) => {
                    let ghost before = names@;
                    names.push(identifier.clone());
                    proof {
                        assert(string_views(names@) =~= string_views(before).push(identifier@));
                        if let Some((ns, v)) = params_from(groups, idx + 1int) {
                            assert(string_views(names@) + ns =~= string_views(before) + (seq![identifier@] + ns));
                        }
                    }
                },
                _ => {
                    return Err(
                        simple_error(&parameters[idx].location, "Parameters must be either an identifier, or `...`."),
                    );
                },
            }
            idx += 1;
        }
        proof {
            assert(string_views(names@) + Seq::<Seq<char>>::empty() =~= string_views(names@));
        }
        Ok(MacroParameterList { parameters: names, variadic: is_variadic })
    }

    /// Splits a comma-delimited sequence of tokens into groups.
    ///
    /// - `[]` -> `[]`
    /// - `[,,]` -> `[[], [], []]`
    /// - `[2+5]` -> `[[2+5]]`
    /// - `[2+5,]` -> `[[2+5], []]`
    pub fn split_delimited<'a>(&self, tokens: &[&'a Spanned<PreprocessingToken>]) -> (r: Vec<Spanned<Vec<&'a Spanned<PreprocessingToken>>>>)
        ensures
            r@.len() == split_spec(derefs(tokens@)).len(),
            forall|i: int| 0 <= i < r@.len() ==> derefs(#[trigger] r@[i].value@) == split_spec(derefs(tokens@))[i],
    {
        let ghost s = derefs(tokens@);
        let mut elements: Vec<Spanned<Vec<&'a Spanned<PreprocessingToken>>>> = Vec::new();
        let mut current_element: Vec<&'a Spanned<PreprocessingToken>> = Vec::new();
        let mut current_element_end = Location::new();
        let mut current_element_start = Location::new();
        let mut k: usize = 0;
        let empty = Location::new();
        while k < tokens.len()
            invariant
                k <= s.len(),
                derefs(tokens@) == s,
                elements@.len() + 1 == comma_groups(s.take(k as int)).len(),
                forall|i: int| 0 <= i < elements@.len() ==> derefs(#[trigger] elements@[i].value@) == comma_groups(s.take(k as int))[i],
                derefs(current_element@) == comma_groups(s.take(k as int)).last(),
            decreases s.len() - k,
        {
            let token: &'a Spanned<PreprocessingToken> = tokens[k];
            proof {
                lemma_comma_groups_nonempty(s.take(k as int));
                assert(s.take(k + 1).drop_last() =~= s.take(k as int));
                assert(s.take(k + 1).last() == s[k as int]);
            }
            if same_location(&current_element_start, &empty) {
                current_element_start = token.location.duplicate();
            }
            let is_comma = match &token.value {
                PreprocessingToken::Punctuator(Punctuator::Comma) => true,
                _ => false,
            };
            if is_comma {
                let group = current_element;
                current_element = Vec::new();
                elements.push(Spanned::new(current_element_start.until(&current_element_end), group));
                current_element_start = token.location.duplicate();
                proof {
                    assert(derefs(current_element@) =~= Seq::<Spanned<PreprocessingToken>>::empty());
                }
            } else {
                current_element_end = token.location.duplicate();
                current_element.push(token);
                proof {
                    assert(derefs(current_element@) =~= comma_groups(s.take(k as int)).last().push(*token));
                }
            }
            k += 1;
        }
        proof {
            assert(s.take(s.len() as int) =~= s);
            lemma_comma_groups_nonempty(s);
        }
        // The last group, which no comma ends.
        let group = current_element;
        elements.push(Spanned::new(current_element_start.until(&current_element_end), group));
        // manual override for `[]` -> `[]`
        if tokens.len() == 0 {
            Vec::new()
        } else {
            elements
        }
    }
}

} // verus!

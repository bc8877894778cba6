//! Macro expansion and conditional inclusion.
use crate::ast::{
    copy_token, copy_tokens, lemma_tokens_view, lemma_tokens_view_add, lemma_tokens_view_push, spanned_view, tokens_view, Delimited, PreprocessingToken,
    Punctuator, TokenView,
};
use crate::errors::{label_view, labels_view, simple_error, Diagnostic, DiagnosticSeverity, ErrorDirective, LabelKind, PResult, Report, UnmatchedDelimiter};
use crate::consteval::eval;
use crate::rescan::{
    args_plain, call_output, expanded_args, is_call, is_defined_op, lemma_args_need, lemma_cond_value, lemma_leaf_queue, lemma_leaves_queue,
    lemma_queue_front, lemma_skip_markers_queue, object_call, plain_need, plain_ok, plain_out, queue_need, queue_ok,
    queue_out,
};
use crate::invocation::{
    fn_replaced, fn_written, lemma_arg_index_params, lemma_flat_expanded, lemma_split_view,
    lemma_substituted_view, split_view, subst_view,
};
use crate::expr::parse_bp;
use crate::spanned::Location;
use crate::tree::{group_body, group_opposition, is_control_line, is_leaf_of, ControlLine, HeaderName, InternalLeaf, IntoTokenTree};
use core::ops::Range;
use crate::consteval::ConstantEvalutator;
use crate::macros::{derefs, non_whitespace, params_from, split_spec, string_views, MacroParameterList};
use crate::parser::{converted, converted_all, converted_view, Parser, Scope, Token};
use crate::substitute::{is_punct, replaced, subst_steps, written, ArgumentSubstitutionIterator, MacroArgument};
use crate::prepend::PrependingPeekableIterator;
use crate::spanned::Spanned;
use crate::strings::{decimal, push_decimal, push_str, str_eq};
use crate::tree::{groups_into, TokenTree};
use crate::lexer::{all_tokens, lex};
use crate::prelexer::prelex_spec;
use crate::Preprocessor;
use vstd::prelude::*;

verus! {

pub type ReplacementList = Vec<Spanned<PreprocessingToken>>;

/// What a macro name is defined as.
#[derive(Debug)]
pub enum MacroDefinition {
    Object(ReplacementList),
    Function { parameter_list: MacroParameterList, replacement_list: ReplacementList },
}

/// The model of a macro definition: the replacement list by its token models, the
/// parameter names as character sequences.
pub enum MacroView {
    Object(Seq<Spanned<TokenView>>),
    Function(Seq<Seq<char>>, bool, Seq<Spanned<TokenView>>),
}

pub open spec fn macro_view(d: MacroDefinition) -> MacroView {
    match d {
        MacroDefinition::Object(r) => MacroView::Object(tokens_view(r@)),
        MacroDefinition::Function { parameter_list, replacement_list } => MacroView::Function(
            string_views(parameter_list.parameters@),
            parameter_list.variadic,
            tokens_view(replacement_list@),
        ),
    }
}

impl MacroDefinition {
    /// A copy of this definition.
    pub fn duplicate(&self) -> (r: Self)
        ensures
            macro_view(r) == macro_view(*self),
    {
        match self {
            MacroDefinition::Object(r) => MacroDefinition::Object(copy_tokens(r)),
            MacroDefinition::Function { parameter_list, replacement_list } => {
                let p = parameter_list.duplicate();
                assert(string_views(p.parameters@) =~= string_views(parameter_list.parameters@));
                MacroDefinition::Function { parameter_list: p, replacement_list: copy_tokens(replacement_list) }
            },
        }
    }
}

/// The map that a list of (name, definition) pairs gives, a later pair for a name
/// overriding an earlier one.
pub open spec fn pairs_map(ps: Seq<(Seq<char>, MacroView)>) -> Map<Seq<char>, MacroView>
    decreases ps.len(),
{
    if ps.len() == 0 {
        Map::empty()
    } else {
        pairs_map(ps.drop_last()).insert(ps.last().0, ps.last().1)
    }
}

/// The pairs of `ps` whose name is not `name`, in order.
pub open spec fn pairs_without(ps: Seq<(Seq<char>, MacroView)>, name: Seq<char>) -> Seq<(Seq<char>, MacroView)>
    decreases ps.len(),
{
    if ps.len() == 0 {
        ps
    } else if ps.last().0 == name {
        pairs_without(ps.drop_last(), name)
    } else {
        pairs_without(ps.drop_last(), name).push(ps.last())
    }
}

/// The index of the last pair named `name`.
pub open spec fn last_pair(ps: Seq<(Seq<char>, MacroView)>, name: Seq<char>) -> Option<int>
    decreases ps.len(),
{
    if ps.len() == 0 {
        None
    } else if ps.last().0 == name {
        Some(ps.len() - 1)
    } else {
        last_pair(ps.drop_last(), name)
    }
}

pub proof fn lemma_last_pair(ps: Seq<(Seq<char>, MacroView)>, name: Seq<char>)
    ensures
        pairs_map(ps).contains_key(name) <==> last_pair(ps, name) is Some,
        last_pair(ps, name) matches Some(i) ==> 0 <= i < ps.len() && ps[i].0 == name && pairs_map(ps)[name]
            == ps[i].1,
    decreases ps.len(),
{
    if ps.len() > 0 {
        lemma_last_pair(ps.drop_last(), name);
    }
}

pub proof fn lemma_pairs_without(ps: Seq<(Seq<char>, MacroView)>, name: Seq<char>)
    ensures
        pairs_map(pairs_without(ps, name)) == pairs_map(ps).remove(name),
    decreases ps.len(),
{
    if ps.len() > 0 {
        lemma_pairs_without(ps.drop_last(), name);
        if ps.last().0 == name {
            assert(pairs_map(ps).remove(name) =~= pairs_map(ps.drop_last()).remove(name));
        } else {
            let w = pairs_without(ps.drop_last(), name);
            assert(w.push(ps.last()).drop_last() =~= w);
            assert(pairs_map(ps).remove(name) =~= pairs_map(ps.drop_last()).remove(name).insert(
                ps.last().0,
                ps.last().1,
            ));
        }
    }
}

/// The macros that are defined: a list of (name, definition) pairs, a later pair for a
/// name overriding an earlier one.
#[derive(Debug)]
pub struct MacroTable {
    entries: Vec<(String, MacroDefinition)>,
}

/// The models of a list of (name, definition) pairs.
pub open spec fn entries_view(es: Seq<(String, MacroDefinition)>) -> Seq<(Seq<char>, MacroView)> {
    es.map_values(|e: (String, MacroDefinition)| (e.0@, macro_view(e.1)))
}

impl View for MacroTable {
    type V = Map<Seq<char>, MacroView>;

    /// Each defined name with the model of its definition.
    closed spec fn view(&self) -> Map<Seq<char>, MacroView> {
        pairs_map(entries_view(self.entries@))
    }
}

impl MacroTable {
    /// A table with no macro.
    pub fn new() -> (r: Self)
        ensures
            r@ == Map::<Seq<char>, MacroView>::empty(),
    {
        let r = MacroTable { entries: Vec::new() };
        assert(entries_view(r.entries@) =~= Seq::<(Seq<char>, MacroView)>::empty());
        r
    }

    /// The definition of `name`, if it is defined.
    pub fn get(&self, name: &str) -> (r: Option<&MacroDefinition>)
        ensures
            r is Some <==> self@.contains_key(name@),
            r matches Some(d) ==> macro_view(*d) == self@[name@],
    {
        let ghost ps = entries_view(self.entries@);
        proof {
            lemma_last_pair(ps, name@);
        }
        let mut i = self.entries.len();
        assert(ps.take(i as int) =~= ps);
        while i > 0
            invariant
                i <= self.entries@.len(),
                ps == entries_view(self.entries@),
                last_pair(ps, name@) == last_pair(ps.take(i as int), name@),
            decreases i,
        {
            assert(ps.take(i as int).drop_last() =~= ps.take(i - 1));
            if str_eq(self.entries[i - 1].0.as_str(), name) {
                proof {
                    lemma_last_pair(ps, name@);
                    assert(ps[i - 1] == (self.entries@[i - 1].0@, macro_view(self.entries@[i - 1].1)));
                }
                return Some(&self.entries[i - 1].1);
            }
            i -= 1;
        }
        proof {
            lemma_last_pair(ps, name@);
        }
        None
    }

    /// Whether `name` is defined.
    pub fn contains_key(&self, name: &str) -> (r: bool)
        ensures
            r == self@.contains_key(name@),
    {
        self.get(name).is_some()
    }

    /// Forgets the definition of `name`, if there is one.
    pub fn remove(&mut self, name: &str)
        ensures
            final(self)@ == old(self)@.remove(name@),
    {
        let ghost ps = entries_view(self.entries@);
        let mut kept: Vec<(String, MacroDefinition)> = Vec::new();
        let mut i: usize = 0;
        while i < self.entries.len()
            invariant
                i <= self.entries@.len(),
                ps == entries_view(self.entries@),
                entries_view(kept@) == pairs_without(ps.take(i as int), name@),
            decreases self.entries@.len() - i,
        {
            assert(ps.take(i + 1).drop_last() =~= ps.take(i as int));
            if !str_eq(self.entries[i].0.as_str(), name) {
                let ghost before = kept@;
                kept.push((self.entries[i].0.clone(), self.entries[i].1.duplicate()));
                assert(entries_view(kept@) =~= entries_view(before).push(ps[i as int]));
            }
            i += 1;
        }
        assert(ps.take(i as int) =~= ps);
        self.entries = kept;
        proof {
            lemma_pairs_without(ps, name@);
        }
    }

    /// Defines `name` as `definition`, replacing any earlier definition.
    pub fn insert(&mut self, name: String, definition: MacroDefinition)
        ensures
            final(self)@ == old(self)@.insert(name@, macro_view(definition)),
    {
        self.remove(name.as_str());
        let ghost before = self.entries@;
        self.entries.push((name, definition));
        assert(entries_view(self.entries@).drop_last() =~= entries_view(before));
        assert(self@ =~= old(self)@.remove(name@).insert(name@, macro_view(definition)));
        assert(self@ =~= old(self)@.insert(name@, macro_view(definition)));
    }

    /// A copy of this table.
    pub fn duplicate(&self) -> (r: Self)
        ensures
            r@ == self@,
    {
        let mut entries: Vec<(String, MacroDefinition)> = Vec::new();
        let mut i: usize = 0;
        while i < self.entries.len()
            invariant
                i <= self.entries@.len(),
                entries_view(entries@) == entries_view(self.entries@).take(i as int),
            decreases self.entries@.len() - i,
        {
            let ghost before = entries@;
            entries.push((self.entries[i].0.clone(), self.entries[i].1.duplicate()));
            assert(entries_view(entries@) =~= entries_view(before).push(entries_view(self.entries@)[i as int]));
            assert(entries_view(self.entries@).take(i + 1) =~= entries_view(self.entries@).take(i as int).push(
                entries_view(self.entries@)[i as int],
            ));
            i += 1;
        }
        assert(entries_view(self.entries@).take(i as int) =~= entries_view(self.entries@));
        MacroTable { entries }
    }
}

/// A set of names: the macros being expanded.
#[derive(Debug)]
pub struct NameSet {
    names: Vec<String>,
}

impl View for NameSet {
    type V = Set<Seq<char>>;

    closed spec fn view(&self) -> Set<Seq<char>> {
        Set::new(|n: Seq<char>| exists|i: int| 0 <= i < self.names@.len() && #[trigger] self.names@[i]@ == n)
    }
}

impl NameSet {
    pub fn new() -> (r: Self)
        ensures
            r@ == Set::<Seq<char>>::empty(),
    {
        let r = NameSet { names: Vec::new() };
        assert(r@ =~= Set::<Seq<char>>::empty());
        r
    }

    pub fn contains(&self, name: &str) -> (r: bool)
        ensures
            r == self@.contains(name@),
    {
        let mut i: usize = 0;
        while i < self.names.len()
            invariant
                i <= self.names@.len(),
                forall|j: int| 0 <= j < i ==> #[trigger] self.names@[j]@ != name@,
            decreases self.names@.len() - i,
        {
            if str_eq(self.names[i].as_str(), name) {
                return true;
            }
            i += 1;
        }
        false
    }

    pub fn insert(&mut self, name: String)
        ensures
            final(self)@ == old(self)@.insert(name@),
    {
        if !self.contains(name.as_str()) {
            let ghost before = self.names@;
            self.names.push(name);
            assert forall|n: Seq<char>| self@.contains(n) == old(self)@.insert(name@).contains(n) by {
                if n != name@ && self@.contains(n) {
                    let i = choose|i: int| 0 <= i < self.names@.len() && #[trigger] self.names@[i]@ == n;
                    assert(before[i]@ == n);
                }
                if old(self)@.contains(n) {
                    let i = choose|i: int| 0 <= i < before.len() && #[trigger] before[i]@ == n;
                    assert(self.names@[i]@ == n);
                }
                if n == name@ {
                    assert(self.names@[before.len() as int]@ == n);
                }
            }
            assert(self@ =~= old(self)@.insert(name@));
        } else {
            assert(self@ =~= old(self)@.insert(name@));
        }
    }

    pub fn remove(&mut self, name: &str)
        ensures
            final(self)@ == old(self)@.remove(name@),
    {
        let ghost old_names = self.names@;
        let mut kept: Vec<String> = Vec::new();
        let mut i: usize = 0;
        while i < self.names.len()
            invariant
                i <= self.names@.len(),
                old_names == self.names@,
                forall|j: int| 0 <= j < kept@.len() ==> #[trigger] kept@[j]@ != name@,
                forall|j: int|
                    0 <= j < kept@.len() ==> exists|k: int| 0 <= k < i && #[trigger] old_names[k]@ == (#[trigger] kept@[j])@,
                forall|k: int|
                    0 <= k < i && #[trigger] old_names[k]@ != name@ ==> exists|j: int|
                        0 <= j < kept@.len() && (#[trigger] kept@[j])@ == old_names[k]@,
            decreases self.names@.len() - i,
        {
            if !str_eq(self.names[i].as_str(), name) {
                let ghost before = kept@;
                kept.push(self.names[i].clone());
                assert(kept@[before.len() as int]@ == old_names[i as int]@);
                assert forall|j: int| 0 <= j < kept@.len() implies exists|k: int|
                    0 <= k < i + 1 && #[trigger] old_names[k]@ == (#[trigger] kept@[j])@ by {
                    if j < before.len() {
                        assert(kept@[j] == before[j]);
                    } else {
                        assert(old_names[i as int]@ == kept@[j]@);
                    }
                }
                assert forall|k: int| 0 <= k < i + 1 && #[trigger] old_names[k]@ != name@ implies exists|j: int|
                    0 <= j < kept@.len() && (#[trigger] kept@[j])@ == old_names[k]@ by {
                    if k < i {
                        let j = choose|j: int| 0 <= j < before.len() && (#[trigger] before[j])@ == old_names[k]@;
                        assert(kept@[j] == before[j]);
                    } else {
                        assert(kept@[before.len() as int]@ == old_names[k]@);
                    }
                }
            }
            i += 1;
        }
        self.names = kept;
        assert forall|n: Seq<char>| self@.contains(n) == old(self)@.remove(name@).contains(n) by {
            if self@.contains(n) {
                let j = choose|j: int| 0 <= j < self.names@.len() && #[trigger] self.names@[j]@ == n;
                let k = choose|k: int| 0 <= k < old_names.len() && #[trigger] old_names[k]@ == self.names@[j]@;
                assert(old(self).names@[k]@ == n);
            }
            if old(self)@.remove(name@).contains(n) {
                let k = choose|k: int| 0 <= k < old_names.len() && #[trigger] old_names[k]@ == n;
                let j = choose|j: int| 0 <= j < self.names@.len() && (#[trigger] self.names@[j])@ == old_names[k]@;
                assert(self.names@[j]@ == n);
            }
        }
        assert(self@ =~= old(self)@.remove(name@));
    }

    pub fn duplicate(&self) -> (r: Self)
        ensures
            r@ == self@,
    {
        let mut names: Vec<String> = Vec::new();
        let mut i: usize = 0;
        while i < self.names.len()
            invariant
                i <= self.names@.len(),
                names@.len() == i,
                forall|j: int| 0 <= j < i ==> #[trigger] names@[j]@ == self.names@[j]@,
            decreases self.names@.len() - i,
        {
            names.push(self.names[i].clone());
            i += 1;
        }
        let r = NameSet { names };
        assert forall|n: Seq<char>| r@.contains(n) == self@.contains(n) by {
            if r@.contains(n) {
                let j = choose|j: int| 0 <= j < r.names@.len() && #[trigger] r.names@[j]@ == n;
                assert(self.names@[j]@ == n);
            }
            if self@.contains(n) {
                let j = choose|j: int| 0 <= j < self.names@.len() && #[trigger] self.names@[j]@ == n;
                assert(r.names@[j]@ == n);
            }
        }
        assert(r@ =~= self@);
        r
    }
}

/// What one step of expansion does with a token tree: hands out tokens, or puts one
/// tree or several back at the front of the stream to be looked at again.
pub enum ExpandControlFlow {
    Return(Vec<Spanned<PreprocessingToken>>),
    Rescan(TokenTree),
    RescanMany(Vec<TokenTree>),
}

/// Expands macros and resolves conditional groups in a stream of token trees.
#[derive(Debug)]
pub struct Expander {
    /// The file the trees come from.
    pub file_id: usize,
    pub token_trees: PrependingPeekableIterator<TokenTree>,
    pub output: Vec<Spanned<PreprocessingToken>>,
    pub macros: MacroTable,
    pub expanding: NameSet,
    pub respect_defined: bool,
    /// How many more expansion steps may be taken; an expansion started from this one
    /// gets one less.  Expansion fails with an error when it runs out.
    pub budget: u64,
}

/// Whether a tree is a marker of where a macro's expansion begins or ends.
pub open spec fn is_marker(t: TokenTree) -> bool {
    ||| t matches TokenTree::Internal(InternalLeaf::BeginExpandingMacro(_))
    ||| t matches TokenTree::Internal(InternalLeaf::FinishExpandingMacro(_))
}

/// Whether a tree is a whitespace token.
pub open spec fn is_whitespace_leaf(t: TokenTree) -> bool {
    t matches TokenTree::PreprocessorToken(x) && x.value is Whitespace
}

/// The first tree that is no marker, the trees after it, and the set of macros being
/// expanded once the markers before it have been taken into account.
pub open spec fn skip_markers(trees: Seq<TokenTree>, exp: Set<Seq<char>>) -> (Option<TokenTree>, Seq<TokenTree>, Set<Seq<char>>)
    decreases trees.len(),
{
    if trees.len() == 0 {
        (None, trees, exp)
    } else {
        match trees[0] {
            TokenTree::Internal(InternalLeaf::BeginExpandingMacro(m)) => skip_markers(trees.drop_first(), exp.insert(m@)),
            TokenTree::Internal(InternalLeaf::FinishExpandingMacro(m)) => skip_markers(trees.drop_first(), exp.remove(m@)),
            t => (Some(t), trees.drop_first(), exp),
        }
    }
}

/// Like `skip_markers`, also skipping whitespace tokens.
pub open spec fn next_significant(trees: Seq<TokenTree>, exp: Set<Seq<char>>) -> (Option<TokenTree>, Seq<TokenTree>, Set<Seq<char>>)
    decreases trees.len(),
{
    if trees.len() == 0 {
        (None, trees, exp)
    } else {
        match trees[0] {
            TokenTree::Internal(InternalLeaf::BeginExpandingMacro(m)) => next_significant(trees.drop_first(), exp.insert(m@)),
            TokenTree::Internal(InternalLeaf::FinishExpandingMacro(m)) => next_significant(trees.drop_first(), exp.remove(m@)),
            t => if is_whitespace_leaf(t) {
                next_significant(trees.drop_first(), exp)
            } else {
                (Some(t), trees.drop_first(), exp)
            },
        }
    }
}

/// The index of the first tree from index `n` on that is neither a marker nor whitespace
/// (among the indices a `usize` can hold).
pub open spec fn first_significant(trees: Seq<TokenTree>, n: int) -> Option<int>
    decreases trees.len() - n,
{
    if n < 0 || n >= trees.len() || n > usize::MAX {
        None
    } else if is_marker(trees[n]) || is_whitespace_leaf(trees[n]) {
        first_significant(trees, n + 1)
    } else {
        Some(n)
    }
}

pub proof fn lemma_skip_markers_len(trees: Seq<TokenTree>, exp: Set<Seq<char>>)
    ensures
        skip_markers(trees, exp).1.len() <= trees.len(),
        skip_markers(trees, exp).0 is Some ==> skip_markers(trees, exp).1.len() < trees.len(),
        skip_markers(trees, exp).0 matches Some(t) ==> !is_marker(t),
        skip_markers(trees, exp).0 is None ==> skip_markers(trees, exp).1.len() == 0,
    decreases trees.len(),
{
    if trees.len() > 0 {
        lemma_skip_markers_len(trees.drop_first(), exp);
        lemma_skip_markers_len(trees.drop_first(), exp.insert(Seq::empty()));
        match trees[0] {
            TokenTree::Internal(InternalLeaf::BeginExpandingMacro(m)) => lemma_skip_markers_len(trees.drop_first(), exp.insert(m@)),
            TokenTree::Internal(InternalLeaf::FinishExpandingMacro(m)) => lemma_skip_markers_len(trees.drop_first(), exp.remove(m@)),
            _ => {},
        }
    }
}

/// Skipping whitespace after the markers is `next_significant`.
pub proof fn lemma_next_significant(trees: Seq<TokenTree>, exp: Set<Seq<char>>)
    ensures
        next_significant(trees, exp) == ({
            let (t, rest, e) = skip_markers(trees, exp);
            match t {
                Some(x) => if is_whitespace_leaf(x) {
                    next_significant(rest, e)
                } else {
                    (Some(x), rest, e)
                },
                None => (None, rest, e),
            }
        }),
    decreases trees.len(),
{
    if trees.len() > 0 {
        match trees[0] {
            TokenTree::Internal(InternalLeaf::BeginExpandingMacro(m)) => lemma_next_significant(trees.drop_first(), exp.insert(m@)),
            TokenTree::Internal(InternalLeaf::FinishExpandingMacro(m)) => lemma_next_significant(trees.drop_first(), exp.remove(m@)),
            _ => {},
        }
    }
}

pub proof fn lemma_next_significant_len(trees: Seq<TokenTree>, exp: Set<Seq<char>>)
    ensures
        next_significant(trees, exp).1.len() <= trees.len(),
        next_significant(trees, exp).0 is Some ==> next_significant(trees, exp).1.len() < trees.len(),
    decreases trees.len(),
{
    if trees.len() > 0 {
        match trees[0] {
            TokenTree::Internal(InternalLeaf::BeginExpandingMacro(m)) => lemma_next_significant_len(trees.drop_first(), exp.insert(m@)),
            TokenTree::Internal(InternalLeaf::FinishExpandingMacro(m)) => lemma_next_significant_len(trees.drop_first(), exp.remove(m@)),
            _ => lemma_next_significant_len(trees.drop_first(), exp),
        }
    }
}

/// The closing punctuator that matches an opening one.
pub open spec fn closer_of(p: Punctuator) -> Punctuator {
    match p {
        Punctuator::LeftParen => Punctuator::RightParen,
        Punctuator::LeftBracket => Punctuator::RightBracket,
        _ => Punctuator::RightBrace,
    }
}

/// Whether `t` is one of `(`, `[`, `{`.
pub open spec fn is_opener(t: PreprocessingToken) -> bool {
    ||| t == PreprocessingToken::Punctuator(Punctuator::LeftParen)
    ||| t == PreprocessingToken::Punctuator(Punctuator::LeftBracket)
    ||| t == PreprocessingToken::Punctuator(Punctuator::LeftBrace)
}

/// The model of a delimited group: opened by `open`, closed by `close` at `close_location`.
pub open spec fn delimited_view(
    open: Spanned<PreprocessingToken>,
    inner: Seq<Spanned<TokenView>>,
    close: Punctuator,
    close_location: Location,
) -> Spanned<TokenView> {
    Spanned {
        value: TokenView::Delimited(
            Box::new(spanned_view(open)),
            Box::new(Spanned { value: TokenView::Punctuator(close), location: close_location }),
            inner,
        ),
        location: open.location,
    }
}

/// Collecting tokens up to the punctuator `close` that matches the opener `open`, with
/// `inner` collected so far: trees that are not tokens are passed over (markers updating
/// the set of macros being expanded), a nested `open` starts a nested group; the inner
/// tokens, the closer's location, the trees after it and the set, or `None` when the trees
/// run out first.
pub open spec fn collect_group(
    trees: Seq<TokenTree>,
    exp: Set<Seq<char>>,
    open: Spanned<PreprocessingToken>,
    close: Punctuator,
    inner: Seq<Spanned<TokenView>>,
) -> Option<(Seq<Spanned<TokenView>>, Location, Seq<TokenTree>, Set<Seq<char>>)>
    decreases trees.len(),
{
    if trees.len() == 0 {
        None
    } else {
        let rest = trees.drop_first();
        match trees[0] {
            TokenTree::Internal(InternalLeaf::BeginExpandingMacro(m)) => collect_group(rest, exp.insert(m@), open, close, inner),
            TokenTree::Internal(InternalLeaf::FinishExpandingMacro(m)) => collect_group(rest, exp.remove(m@), open, close, inner),
            TokenTree::PreprocessorToken(t) => if t.value == PreprocessingToken::Punctuator(close) {
                Some((inner, t.location, rest, exp))
            } else if t.value == open.value {
                match collect_group(rest, exp, open, close, seq![]) {
                    Some((nested, loc, rest2, exp2)) => if rest2.len() < trees.len() {
                        collect_group(rest2, exp2, open, close, inner.push(delimited_view(open, nested, close, loc)))
                    } else {
                        None
                    },
                    None => None,
                }
            } else {
                collect_group(rest, exp, open, close, inner.push(spanned_view(t)))
            },
            _ => collect_group(rest, exp, open, close, inner),
        }
    }
}

pub proof fn lemma_collect_group_len(
    trees: Seq<TokenTree>,
    exp: Set<Seq<char>>,
    open: Spanned<PreprocessingToken>,
    close: Punctuator,
    inner: Seq<Spanned<TokenView>>,
)
    ensures
        collect_group(trees, exp, open, close, inner) matches Some((_, _, rest, _)) ==> rest.len() < trees.len(),
    decreases trees.len(),
{
    if trees.len() > 0 {
        let rest = trees.drop_first();
        match trees[0] {
            TokenTree::Internal(InternalLeaf::BeginExpandingMacro(m)) => lemma_collect_group_len(rest, exp.insert(m@), open, close, inner),
            TokenTree::Internal(InternalLeaf::FinishExpandingMacro(m)) => lemma_collect_group_len(rest, exp.remove(m@), open, close, inner),
            TokenTree::PreprocessorToken(t) => if t.value == PreprocessingToken::Punctuator(close) {
            } else if t.value == open.value {
                match collect_group(rest, exp, open, close, seq![]) {
                    Some((nested, loc, rest2, exp2)) => if rest2.len() < trees.len() {
                        lemma_collect_group_len(rest2, exp2, open, close, inner.push(delimited_view(open, nested, close, loc)));
                    },
                    None => {},
                }
            } else {
                lemma_collect_group_len(rest, exp, open, close, inner.push(spanned_view(t)));
            },
            _ => lemma_collect_group_len(rest, exp, open, close, inner),
        }
    }
}

/// Collecting passes over the markers in front first.
pub proof fn lemma_collect_group_skip(
    trees: Seq<TokenTree>,
    exp: Set<Seq<char>>,
    open: Spanned<PreprocessingToken>,
    close: Punctuator,
    inner: Seq<Spanned<TokenView>>,
)
    ensures
        collect_group(trees, exp, open, close, inner) == ({
            let (t, rest, e) = skip_markers(trees, exp);
            match t {
                None => None,
                Some(x) => collect_group(seq![x] + rest, e, open, close, inner),
            }
        }),
    decreases trees.len(),
{
    if trees.len() > 0 {
        match trees[0] {
            TokenTree::Internal(InternalLeaf::BeginExpandingMacro(m)) => lemma_collect_group_skip(trees.drop_first(), exp.insert(m@), open, close, inner),
            TokenTree::Internal(InternalLeaf::FinishExpandingMacro(m)) => lemma_collect_group_skip(trees.drop_first(), exp.remove(m@), open, close, inner),
            _ => {
                assert(seq![trees[0]] + trees.drop_first() =~= trees);
            },
        }
    }
}

/// The tokens of `s` that are not whitespace.
pub open spec fn without_whitespace_view(s: Seq<Spanned<TokenView>>) -> Seq<Spanned<TokenView>> {
    s.filter(|t: Spanned<TokenView>| !(t.value is Whitespace))
}

/// The tokens of `s`, each moved to `location`.
pub open spec fn relocated(s: Seq<Spanned<TokenView>>, location: Location) -> Seq<Spanned<TokenView>> {
    s.map_values(|t: Spanned<TokenView>| Spanned { value: t.value, location })
}

/// Whether no token of `s` is `#` or `##`.
pub open spec fn no_hash_view(s: Seq<Spanned<TokenView>>) -> bool {
    forall|i: int|
        0 <= i < s.len() ==> (#[trigger] s[i]).value != TokenView::Punctuator(Punctuator::Hash) && s[i].value
            != TokenView::Punctuator(Punctuator::HashHash)
}

/// Copies of the tokens of `v` that are not whitespace.
pub fn without_whitespace(v: &Vec<Spanned<PreprocessingToken>>) -> (r: Vec<Spanned<PreprocessingToken>>)
    ensures
        tokens_view(r@) == without_whitespace_view(tokens_view(v@)),
{
    let mut out: Vec<Spanned<PreprocessingToken>> = Vec::new();
    let mut i: usize = 0;
    assert(v@.take(0) =~= Seq::<Spanned<PreprocessingToken>>::empty());
    while i < v.len()
        invariant
            i <= v@.len(),
            tokens_view(out@) == without_whitespace_view(tokens_view(v@.take(i as int))),
        decreases v@.len() - i,
    {
        proof {
            assert(v@.take(i + 1) =~= v@.take(i as int).push(v@[i as int]));
            lemma_tokens_view_push(v@.take(i as int), v@[i as int]);
            tokens_view(v@.take(i as int)).lemma_filter_push(
                spanned_view(v@[i as int]),
                |t: Spanned<TokenView>| !(t.value is Whitespace),
            );
        }
        let is_ws = match &v[i].value {
            PreprocessingToken::Whitespace(_) => true,
            _ => false,
        };
        if !is_ws {
            let t = copy_token(&v[i]);
            proof {
                lemma_tokens_view_push(out@, t);
            }
            out.push(t);
        }
        i += 1;
    }
    assert(v@.take(i as int) =~= v@);
    out
}

/// The tokens of `v` as leaves, in order.
pub fn leaves_of(v: Vec<Spanned<PreprocessingToken>>) -> (r: Vec<TokenTree>)
    ensures
        r@ == v@.map_values(|x: Spanned<PreprocessingToken>| TokenTree::PreprocessorToken(x)),
{
    let ghost v0 = v@;
    let mut v = v;
    let mut out: Vec<TokenTree> = Vec::new();
    while v.len() > 0
        invariant
            out@.len() + v@.len() == v0.len(),
            forall|i: int| 0 <= i < out@.len() ==> #[trigger] out@[i] == TokenTree::PreprocessorToken(v0[i]),
            forall|j: int| 0 <= j < v@.len() ==> #[trigger] v@[j] == v0[out@.len() + j],
        decreases v@.len(),
    {
        let x = v.remove(0);
        out.push(TokenTree::PreprocessorToken(x));
    }
    assert(out@ =~= v0.map_values(|x: Spanned<PreprocessingToken>| TokenTree::PreprocessorToken(x)));
    out
}

/// Copies of the tokens of `v`, each at `location`.
pub fn relocate(v: &Vec<Spanned<PreprocessingToken>>, location: &Location) -> (r: Vec<Spanned<PreprocessingToken>>)
    ensures
        tokens_view(r@) == relocated(tokens_view(v@), *location),
{
    let mut out: Vec<Spanned<PreprocessingToken>> = Vec::new();
    let mut i: usize = 0;
    proof {
        lemma_tokens_view(v@);
    }
    while i < v.len()
        invariant
            i <= v@.len(),
            tokens_view(v@).len() == v@.len(),
            forall|j: int| 0 <= j < v@.len() ==> #[trigger] tokens_view(v@)[j] == spanned_view(v@[j]),
            tokens_view(out@) == relocated(tokens_view(v@), *location).take(i as int),
        decreases v@.len() - i,
    {
        let t = Spanned::new(location.duplicate(), v[i].value.duplicate());
        proof {
            lemma_tokens_view_push(out@, t);
            assert(relocated(tokens_view(v@), *location).take(i + 1) =~= relocated(tokens_view(v@), *location).take(
                i as int,
            ).push(spanned_view(t)));
        }
        out.push(t);
        i += 1;
    }
    assert(relocated(tokens_view(v@), *location).take(i as int) =~= relocated(tokens_view(v@), *location));
    out
}

/// Whether a token comes out of expansion as it went in: it is not a delimited group, and
/// an identifier among them names no macro, no macro being expanded, and is not `defined`
/// where that operator counts.
pub open spec fn passes_through(
    t: Spanned<PreprocessingToken>,
    macros: Map<Seq<char>, MacroView>,
    exp: Set<Seq<char>>,
    respect_defined: bool,
) -> bool {
    &&& !(t.value is Delimited)
    &&& t.value is Identifier ==> {
        let id = t.value->Identifier_0@;
        &&& !macros.contains_key(id)
        &&& !exp.contains(id)
        &&& !(respect_defined && id == "defined"@)
    }
}

/// Whether a tree is a token that comes out of expansion as it went in.
pub open spec fn passes_tree(
    tree: TokenTree,
    macros: Map<Seq<char>, MacroView>,
    exp: Set<Seq<char>>,
    respect_defined: bool,
) -> bool {
    tree is PreprocessorToken && passes_through(tree->PreprocessorToken_0, macros, exp, respect_defined)
}

/// The tokens of a sequence of token leaves.
pub open spec fn leaf_tokens(trees: Seq<TokenTree>) -> Seq<Spanned<PreprocessingToken>> {
    trees.map_values(|t: TokenTree| t->PreprocessorToken_0)
}

/// What `#define` and `#undef` make of the macro table; `None` for the other directives and
/// for a parameter list that does not read (see `parse_parameters`).
pub open spec fn control_line_effect(c: ControlLine, macros: Map<Seq<char>, MacroView>) -> Option<
    Map<Seq<char>, MacroView>,
> {
    match c {
        ControlLine::DefineObject { macro_name, replacement_list } => Some(
            macros.insert(macro_name@, MacroView::Object(tokens_view(replacement_list@))),
        ),
        ControlLine::DefineFunction { macro_name, parameters, replacement_list } => match parameters.value {
            PreprocessingToken::Delimited(d) => if d.opener.value == PreprocessingToken::Punctuator(Punctuator::LeftParen) {
                match params_from(split_spec(non_whitespace(d.inner_tokens@)), 0) {
                    Some((names, variadic)) => Some(
                        macros.insert(macro_name@, MacroView::Function(names, variadic, tokens_view(replacement_list@))),
                    ),
                    None => None,
                }
            } else {
                None
            },
            _ => None,
        },
        ControlLine::Undefine(macro_name) => Some(macros.remove(macro_name@)),
        _ => None,
    }
}

/// Whether a call's `(` (or a parenthesized group) is the next tree that is neither a
/// marker nor whitespace.
pub open spec fn call_follows(trees: Seq<TokenTree>) -> bool {
    first_significant(trees, 0) matches Some(i) && trees[i] matches TokenTree::PreprocessorToken(x) && (x.value
        == PreprocessingToken::Punctuator(Punctuator::LeftParen) || (x.value is Delimited
        && x.value->Delimited_0.opener.value == PreprocessingToken::Punctuator(Punctuator::LeftParen)))
}

/// The number `1` or `0` at `location`.
pub open spec fn flag_token(b: bool, location: Location) -> Spanned<TokenView> {
    Spanned { value: TokenView::PPNumber(if b { "1"@ } else { "0"@ }), location }
}

/// What `defined` at `location` becomes: `1` or `0` as the identifier after it, alone or
/// in parentheses as the only token, is a macro; with the trees after it and the set of
/// macros being expanded; `None` when anything else follows.
pub open spec fn defined_result(
    trees: Seq<TokenTree>,
    exp: Set<Seq<char>>,
    macros: Map<Seq<char>, MacroView>,
    location: Location,
) -> Option<(Seq<Spanned<TokenView>>, Seq<TokenTree>, Set<Seq<char>>)> {
    match first_significant(trees, 0) {
        Some(i) => match trees[i] {
            TokenTree::PreprocessorToken(x) => {
                let (_, rest, e) = next_significant(trees, exp);
                match x.value {
                    PreprocessingToken::Identifier(id) => Some((seq![flag_token(macros.contains_key(id@), location)], rest, e)),
                    PreprocessingToken::Punctuator(Punctuator::LeftParen) => match collect_group(
                        rest,
                        e,
                        x,
                        Punctuator::RightParen,
                        seq![],
                    ) {
                        Some((inner, _, rest2, e2)) => if inner.len() == 1 && inner[0].value is Identifier {
                            Some(
                                (
                                    seq![flag_token(macros.contains_key(inner[0].value->Identifier_0), location)],
                                    rest2,
                                    e2,
                                ),
                            )
                        } else {
                            None
                        },
                        None => None,
                    },
                    _ => None,
                }
            },
            _ => None,
        },
        None => None,
    }
}

/// Whether a token passes through expansion depends only on its model.
pub proof fn lemma_passes_view(
    a: Spanned<PreprocessingToken>,
    b: Spanned<PreprocessingToken>,
    macros: Map<Seq<char>, MacroView>,
    exp: Set<Seq<char>>,
    respect_defined: bool,
)
    requires
        spanned_view(a) == spanned_view(b),
    ensures
        passes_through(a, macros, exp, respect_defined) == passes_through(b, macros, exp, respect_defined),
{
    match a.value {
        PreprocessingToken::Identifier(x) => match b.value {
            PreprocessingToken::Identifier(y) => {},
            _ => {},
        },
        _ => {},
    }
}

/// The model of a one-token sequence.
pub proof fn lemma_tokens_view_single(t: Spanned<PreprocessingToken>)
    ensures
        tokens_view(seq![t]) == seq![spanned_view(t)],
{
    lemma_tokens_view(seq![t]);
    assert(tokens_view(seq![t]) =~= seq![spanned_view(t)]);
}

/// Whether the tokens of an `#if` condition all come out of its expansion as they went in
/// (no control line among them, `defined` not used).
pub open spec fn plain_condition(condition: Seq<Spanned<PreprocessingToken>>, macros: Map<Seq<char>, MacroView>) -> bool {
    forall|i: int|
        0 <= i < condition.len() ==> passes_through(#[trigger] condition[i], macros, Set::empty(), true)
            && !is_control_line(condition[i])
}

/// What putting the trees of the tokens `toks` in front of the trees `before` gives, as
/// `after` with result `r`: where they group into no trees, an error with nothing changed;
/// where they group into `trees`, those trees in front.
pub open spec fn included(
    toks: Seq<Spanned<PreprocessingToken>>,
    trees: Option<Seq<TokenTree>>,
    before: Seq<TokenTree>,
    after: Seq<TokenTree>,
    r: PResult<()>,
) -> bool {
    match trees {
        None => (forall|v: Seq<TokenTree>| !#[trigger] groups_into(toks, 0, false, v)) && r is Err && after == before,
        Some(trees) => groups_into(toks, 0, false, trees) && r is Ok && after == trees + before,
    }
}

/// Whether `q` holds one leaf for each token of `condition`, with the same model.
pub open spec fn leaves_for(q: Seq<TokenTree>, condition: Seq<Spanned<PreprocessingToken>>) -> bool {
    q.len() == condition.len() && forall|i: int| 0 <= i < q.len() ==> is_leaf_of(#[trigger] q[i], condition[i])
}

/// Whether `b` is what a condition comes to whose tokens, as the leaves `q`, expand plainly
/// (see `queue_ok`, with `defined` in force) in fewer than `budget` steps: the evaluation
/// of what they come out as.
pub open spec fn condition_by_queue(
    q: Seq<TokenTree>,
    macros: Map<Seq<char>, MacroView>,
    file_id: usize,
    budget: int,
    b: PResult<bool>,
) -> bool {
    queue_ok(q, macros, Set::<Seq<char>>::empty(), true, file_id) && budget > queue_need(
        q,
        macros,
        Set::<Seq<char>>::empty(),
        true,
        file_id,
    ) ==> condition_value(queue_out(q, macros, Set::<Seq<char>>::empty(), true, file_id), b)
}

/// What the evaluation of a condition gives: there is a reading of its tokens as parser
/// tokens, with one empty scope, under which the expression parses and evaluates; the
/// condition holds when the value is 1; an error when parsing or evaluation fails.
pub open spec fn condition_outcome(condition: Seq<Spanned<PreprocessingToken>>, r: PResult<bool>) -> bool {
    exists|items: Seq<PResult<Spanned<Token>>>, sc: Seq<Scope>|
        #![trigger converted_all(condition, items), parse_bp(items, 0, sc)]
        {
            &&& sc.len() == 1
            &&& sc[0].identifiers@.len() == 0
            &&& converted_all(condition, items)
            &&& match parse_bp(items, 0, sc) {
                Some((e, _, _)) => match eval(e) {
                    Some(v) => r == Ok::<bool, Report>(v == 1),
                    None => r is Err,
                },
                None => r is Err,
            }
        }
}

/// What the evaluation of a condition whose tokens have the models `vs` gives: there is a
/// reading of its tokens as parser tokens, with one empty scope, under which the expression
/// parses and evaluates; the condition holds when the value is 1; an error when parsing or
/// evaluation fails.
pub open spec fn condition_value(vs: Seq<Spanned<TokenView>>, r: PResult<bool>) -> bool {
    let ws = without_whitespace_view(vs);
    exists|items: Seq<PResult<Spanned<Token>>>, sc: Seq<Scope>|
        #![trigger parse_bp(items, 0, sc)]
        {
            &&& sc.len() == 1
            &&& sc[0].identifiers@.len() == 0
            &&& items.len() == ws.len()
            &&& forall|i: int| 0 <= i < items.len() ==> converted_view(#[trigger] ws[i], items[i])
            &&& match parse_bp(items, 0, sc) {
                Some((e, _, _)) => match eval(e) {
                    Some(v) => r == Ok::<bool, Report>(v == 1),
                    None => r is Err,
                },
                None => r is Err,
            }
        }
}

/// Dropping whitespace commutes with taking models.
pub proof fn lemma_tokens_view_without_whitespace(x: Seq<Spanned<PreprocessingToken>>)
    ensures
        tokens_view(non_whitespace(x)) == without_whitespace_view(tokens_view(x)),
    decreases x.len(),
{
    if x.len() == 0 {
        assert(non_whitespace(x) =~= Seq::<Spanned<PreprocessingToken>>::empty()) by {
            x.lemma_filter_len(|t: Spanned<PreprocessingToken>| !(t.value is Whitespace));
        }
        assert(without_whitespace_view(tokens_view(x)) =~= Seq::<Spanned<TokenView>>::empty()) by {
            tokens_view(x).lemma_filter_len(|t: Spanned<TokenView>| !(t.value is Whitespace));
        }
    } else {
        let d = x.drop_last();
        let l = x.last();
        lemma_tokens_view_without_whitespace(d);
        assert(d.push(l) =~= x);
        lemma_tokens_view_push(d, l);
        d.lemma_filter_push(l, |t: Spanned<PreprocessingToken>| !(t.value is Whitespace));
        tokens_view(d).lemma_filter_push(spanned_view(l), |t: Spanned<TokenView>| !(t.value is Whitespace));
        if !(l.value is Whitespace) {
            lemma_tokens_view_push(non_whitespace(d), l);
        }
    }
}

/// How the token stream reads a token depends only on its model.
pub proof fn lemma_converted_view(a: Spanned<PreprocessingToken>, b: Spanned<PreprocessingToken>, r: PResult<Spanned<Token>>)
    requires
        spanned_view(a) == spanned_view(b),
    ensures
        converted(a, r) == converted(b, r),
{
    match a.value {
        PreprocessingToken::Identifier(x) => match b.value {
            PreprocessingToken::Identifier(y) => {},
            _ => {},
        },
        _ => {},
    }
}

/// How the token stream reads a token is how it reads its model.
pub proof fn lemma_converted_is_view(t: Spanned<PreprocessingToken>, r: PResult<Spanned<Token>>)
    ensures
        converted(t, r) == converted_view(spanned_view(t), r),
{
}

/// How the token stream reads a sequence depends only on its model.
pub proof fn lemma_converted_all_view(
    a: Seq<Spanned<PreprocessingToken>>,
    b: Seq<Spanned<PreprocessingToken>>,
    items: Seq<PResult<Spanned<Token>>>,
)
    requires
        tokens_view(a) == tokens_view(b),
    ensures
        converted_all(a, items) == converted_all(b, items),
{
    lemma_tokens_view_without_whitespace(a);
    lemma_tokens_view_without_whitespace(b);
    let na = non_whitespace(a);
    let nb = non_whitespace(b);
    lemma_tokens_view(na);
    lemma_tokens_view(nb);
    assert forall|i: int| 0 <= i < na.len() implies spanned_view(na[i]) == spanned_view(nb[i]) by {
        assert(tokens_view(na)[i] == spanned_view(na[i]));
        assert(tokens_view(nb)[i] == spanned_view(nb[i]));
    }
    if converted_all(a, items) {
        assert forall|i: int| 0 <= i < items.len() implies converted(#[trigger] nb[i], items[i]) by {
            lemma_converted_view(na[i], nb[i], items[i]);
        }
    }
    if converted_all(b, items) {
        assert forall|i: int| 0 <= i < items.len() implies converted(#[trigger] na[i], items[i]) by {
            lemma_converted_view(na[i], nb[i], items[i]);
        }
    }
}

/// The first significant tree, found by looking ahead, is the one taken next.
pub proof fn lemma_first_significant(trees: Seq<TokenTree>, exp: Set<Seq<char>>, n: int)
    requires
        0 <= n <= trees.len(),
    ensures
        first_significant(trees, n) matches Some(i) ==> next_significant(trees.skip(n), exp).0 == Some(trees[i]),
    decreases trees.len() - n,
{
    if n < trees.len() && n <= usize::MAX {
        let t = trees[n];
        assert(trees.skip(n)[0] == t);
        assert(trees.skip(n).drop_first() =~= trees.skip(n + 1));
        match t {
            TokenTree::Internal(InternalLeaf::BeginExpandingMacro(m)) => lemma_first_significant(trees, exp.insert(m@), n + 1),
            TokenTree::Internal(InternalLeaf::FinishExpandingMacro(m)) => lemma_first_significant(trees, exp.remove(m@), n + 1),
            _ => lemma_first_significant(trees, exp, n + 1),
        }
    }
}

/// The parenthesized group of a call that comes next (see `next_delimited`): the models of
/// its inner tokens, the trees after it and the set of macros being expanded; `None` when
/// it is not closed.
pub open spec fn call_group(trees: Seq<TokenTree>, exp: Set<Seq<char>>) -> Option<
    (Seq<Spanned<TokenView>>, Seq<TokenTree>, Set<Seq<char>>),
> {
    let (t, rest, e) = next_significant(trees, exp);
    match t {
        Some(TokenTree::PreprocessorToken(p)) => if p.value == PreprocessingToken::Punctuator(Punctuator::LeftParen) {
            match collect_group(rest, e, p, Punctuator::RightParen, seq![]) {
                Some((inner, _, rest2, e2)) => Some((inner, rest2, e2)),
                None => None,
            }
        } else if p.value is Delimited {
            Some((tokens_view(p.value->Delimited_0.inner_tokens@), rest, e))
        } else {
            None
        },
        _ => None,
    }
}

/// What the replacement list of an object-like macro becomes before it is moved into place:
/// whitespace dropped, then `#` and `##` applied (see `subst_steps`).
pub open spec fn object_output(replacement: Seq<Spanned<TokenView>>, file_id: usize) -> Option<Seq<Spanned<TokenView>>> {
    subst_steps(
        without_whitespace_view(replacement),
        false,
        seq![],
        false,
        seq![],
        |t: Spanned<TokenView>| seq![t],
        |t: Spanned<TokenView>| seq![t],
        file_id,
    )
}

/// The message for a call of a macro with `expected` parameters and `found` arguments.
pub open spec fn count_message(expected: nat, found: nat) -> Seq<char> {
    "Expected "@ + decimal(expected) + " parameters, found "@ + decimal(found)
}

/// What `handle_identifier` does with `identifier` at `span`, from state `before` to
/// `after` with result `r`: with no macro of that name, the identifier itself; with an
/// object-like macro, its replacement list (whitespace dropped, moved to `span`) as one
/// expansion tree to look at again, exactly so when the list holds no `#` or `##`; with a
/// function-like macro not followed by a call, the identifier itself; with a call, one
/// expansion tree to look at again, exactly so when the arguments are plain: each
/// parameter stands for its argument as it comes out of its own expansion, and for the
/// argument as written where it is stringified or glued.
pub open spec fn identifier_outcome(
    before: Expander,
    after: Expander,
    span: Location,
    identifier: Seq<char>,
    r: PResult<ExpandControlFlow>,
) -> bool {
    let unchanged = after.token_trees@ == before.token_trees@ && after.expanding@ == before.expanding@;
    let itself = r matches Ok(ExpandControlFlow::Return(out)) && tokens_view(out@) == seq![
        Spanned { value: TokenView::Identifier(identifier), location: span },
    ];
    if !before.macros@.contains_key(identifier) {
        itself && unchanged
    } else {
        match before.macros@[identifier] {
            MacroView::Object(replacement) => {
                &&& unchanged
                &&& r is Ok ==> (r->Ok_0 matches ExpandControlFlow::Rescan(TokenTree::Internal(
                    InternalLeaf::MacroExpansion(n, out),
                )) && n@ == identifier)
                &&& no_hash_view(without_whitespace_view(replacement)) ==> {
                    &&& r matches Ok(ExpandControlFlow::Rescan(TokenTree::Internal(InternalLeaf::MacroExpansion(n, out))))
                    &&& tokens_view(
                        r->Ok_0->Rescan_0->Internal_0->MacroExpansion_1@,
                    ) == relocated(without_whitespace_view(replacement), span)
                }
                &&& object_output(replacement, before.file_id) matches Some(o) ==> {
                    &&& r matches Ok(ExpandControlFlow::Rescan(TokenTree::Internal(InternalLeaf::MacroExpansion(n, out))))
                    &&& tokens_view(r->Ok_0->Rescan_0->Internal_0->MacroExpansion_1@) == relocated(o, span)
                }
            },
            MacroView::Function(params, variadic, replacement) => if !call_follows(before.token_trees@) {
                itself && unchanged
            } else {
                &&& r is Ok ==> {
                    &&& r->Ok_0 is RescanMany
                    &&& r->Ok_0->RescanMany_0@.len() == 1
                    &&& r->Ok_0->RescanMany_0@[0] matches TokenTree::Internal(InternalLeaf::MacroExpansion(n, _))
                        && n@ == identifier
                }
                &&& match call_group(before.token_trees@, before.expanding@) {
                    None => r is Err,
                    Some((inner, rest, e)) => {
                        let groups = split_view(inner);
                        if groups.len() < params.len() || (!variadic && groups.len() > params.len()) {
                            r matches Err(e) && e.severity == DiagnosticSeverity::Error && e.labels@.len() == 1
                                && e.labels@[0].message@ == count_message(params.len(), groups.len())
                        } else {
                            let eg = expanded_args(groups, before.macros@, e, before.file_id);
                            &&& args_plain(groups, before.macros@, e, before.file_id, before.budget as int)
                                && no_hash_view(without_whitespace_view(replacement)) ==> {
                                &&& r is Ok
                                &&& tokens_view(r->Ok_0->RescanMany_0@[0]->Internal_0->MacroExpansion_1@) == relocated(
                                    subst_view(without_whitespace_view(replacement), params, eg, variadic),
                                    span,
                                )
                                &&& after.token_trees@ == rest
                                &&& after.expanding@ == e
                            }
                            &&& args_plain(groups, before.macros@, e, before.file_id, before.budget as int) ==> (subst_steps(
                                without_whitespace_view(replacement),
                                false,
                                seq![],
                                false,
                                seq![],
                                |t: Spanned<TokenView>| fn_written(t, params, groups),
                                |t: Spanned<TokenView>| fn_replaced(t, params, eg, variadic),
                                before.file_id,
                            ) matches Some(o) ==> {
                                &&& r is Ok
                                &&& tokens_view(r->Ok_0->RescanMany_0@[0]->Internal_0->MacroExpansion_1@) == relocated(o, span)
                                &&& after.token_trees@ == rest
                                &&& after.expanding@ == e
                            })
                        }
                    },
                }
            },
        }
    }
}

impl Expander {
    /// An expander over `token_trees` with the macros of `default_macros`, nothing being
    /// expanded and the whole step budget.
    pub fn new(file_id: usize, token_trees: PrependingPeekableIterator<TokenTree>, default_macros: MacroTable) -> (r: Self)
        ensures
            r.file_id == file_id,
            r.token_trees@ == token_trees@,
            r.output@.len() == 0,
            r.macros@ == default_macros@,
            r.expanding@ == Set::<Seq<char>>::empty(),
            !r.respect_defined,
            r.budget == u64::MAX,
    {
        Expander {
            file_id,
            token_trees,
            output: Vec::new(),
            macros: default_macros,
            expanding: NameSet::new(),
            respect_defined: false,
            budget: u64::MAX,
        }
    }

    /// The next tree that is not a marker; the markers passed over add to or take from the
    /// set of macros being expanded.
    pub fn next_token_tree(&mut self) -> (r: Option<TokenTree>)
        ensures
            (r, final(self).token_trees@, final(self).expanding@) == skip_markers(
                old(self).token_trees@,
                old(self).expanding@,
            ),
            final(self).file_id == old(self).file_id,
            final(self).output@ == old(self).output@,
            final(self).macros@ == old(self).macros@,
            final(self).respect_defined == old(self).respect_defined,
            final(self).budget == old(self).budget,
    {
        loop
            invariant
                skip_markers(self.token_trees@, self.expanding@) == skip_markers(
                    old(self).token_trees@,
                    old(self).expanding@,
                ),
                self.file_id == old(self).file_id,
                self.output@ == old(self).output@,
                self.macros@ == old(self).macros@,
                self.respect_defined == old(self).respect_defined,
                self.budget == old(self).budget,
            decreases self.token_trees@.len(),
        {
            match self.token_trees.next() {
                Some(TokenTree::Internal(InternalLeaf::BeginExpandingMacro(mac))) => {
                    self.expanding.insert(mac);
                },
                Some(TokenTree::Internal(InternalLeaf::FinishExpandingMacro(mac))) => {
                    self.expanding.remove(mac.as_str());
                },
                Some(tt) => {
                    return Some(tt);
                },
                None => {
                    return None;
                },
            }
        }
    }

    /// The first tree from position `n` on that is neither a marker nor whitespace; nothing consumed.
    pub fn peek_non_whitespace_nth(&self, n: usize) -> (r: Option<&TokenTree>)
        ensures
            match first_significant(self.token_trees@, n as int) {
                Some(i) => r == Some(&self.token_trees@[i]),
                None => r is None,
            },
    {
        let mut i = n;
        loop
            invariant
                n <= i,
                first_significant(self.token_trees@, n as int) == first_significant(self.token_trees@, i as int),
            decreases usize::MAX - i,
        {
            let skip = match self.token_trees.peek_nth(i) {
                Some(TokenTree::Internal(InternalLeaf::BeginExpandingMacro(_))) => true,
                Some(TokenTree::Internal(InternalLeaf::FinishExpandingMacro(_))) => true,
                Some(TokenTree::PreprocessorToken(t)) => match &t.value {
                    PreprocessingToken::Whitespace(_) => true,
                    _ => false,
                },
                Some(_) => false,
                None => {
                    return None;
                },
            };
            if !skip {
                return self.token_trees.peek_nth(i);
            }
            if i == usize::MAX {
                assert(first_significant(self.token_trees@, i + 1) is None);
                assert(first_significant(self.token_trees@, i as int) is None);
                return None;
            }
            i = i + 1;
        }
    }

    /// The first tree that is neither a marker nor whitespace; nothing consumed.
    pub fn peek_non_whitespace(&self) -> (r: Option<&TokenTree>)
        ensures
            match first_significant(self.token_trees@, 0) {
                Some(i) => r == Some(&self.token_trees@[i]),
                None => r is None,
            },
    {
        self.peek_non_whitespace_nth(0)
    }

    /// Takes the next tree that is neither a marker nor whitespace.
    pub fn next_non_whitespace(&mut self) -> (r: Option<TokenTree>)
        ensures
            (r, final(self).token_trees@, final(self).expanding@) == next_significant(
                old(self).token_trees@,
                old(self).expanding@,
            ),
            final(self).file_id == old(self).file_id,
            final(self).output@ == old(self).output@,
            final(self).macros@ == old(self).macros@,
            final(self).respect_defined == old(self).respect_defined,
            final(self).budget == old(self).budget,
    {
        loop
            invariant
                next_significant(self.token_trees@, self.expanding@) == next_significant(
                    old(self).token_trees@,
                    old(self).expanding@,
                ),
                self.file_id == old(self).file_id,
                self.output@ == old(self).output@,
                self.macros@ == old(self).macros@,
                self.respect_defined == old(self).respect_defined,
                self.budget == old(self).budget,
            decreases self.token_trees@.len(),
        {
            proof {
                lemma_next_significant(self.token_trees@, self.expanding@);
                lemma_skip_markers_len(self.token_trees@, self.expanding@);
            }
            let tt = self.next_token_tree()?;
            match &tt {
                TokenTree::PreprocessorToken(t) => match &t.value {
                    PreprocessingToken::Whitespace(_) => {},
                    _ => {
                        return Some(tt);
                    },
                },
                _ => {
                    return Some(tt);
                },
            }
        }
    }
    /// The tokens up to the punctuator that closes `opening_token` (see `collect_group`),
    /// as one delimited token at the opener's location; an error when the trees run out first.
    pub fn collect_until_closing_delimiter(&mut self, opening_token: &Spanned<PreprocessingToken>, skip_macro_replacement: bool) -> (r: PResult<Spanned<PreprocessingToken>>)
        requires
            is_opener(opening_token.value),
        ensures
            final(self).file_id == old(self).file_id,
            final(self).output@ == old(self).output@,
            final(self).macros@ == old(self).macros@,
            final(self).respect_defined == old(self).respect_defined,
            final(self).budget == old(self).budget,
            final(self).token_trees@.len() <= old(self).token_trees@.len(),
            match collect_group(
                old(self).token_trees@,
                old(self).expanding@,
                *opening_token,
                closer_of(opening_token.value->Punctuator_0),
                seq![],
            ) {
                Some((inner, location, rest, exp)) => {
                    &&& r is Ok
                    &&& spanned_view(r->Ok_0) == delimited_view(
                        *opening_token,
                        inner,
                        closer_of(opening_token.value->Punctuator_0),
                        location,
                    )
                    &&& final(self).token_trees@ == rest
                    &&& final(self).expanding@ == exp
                },
                None => {
                    &&& r matches Err(e)
                    &&& r->Err_0.severity == DiagnosticSeverity::Error
                    &&& r->Err_0.title@ == "Unmatched delimiter"@
                    &&& r->Err_0.labels@.len() == 2
                    &&& r->Err_0.labels@[0].kind == LabelKind::Primary
                    &&& r->Err_0.labels@[0].message@ == "Unmatched delimiter"@
                    &&& r->Err_0.labels@[1].kind == LabelKind::Secondary
                    &&& r->Err_0.labels@[1].message@ == "Potential location for a closing delimiter"@
                },
            },
        decreases old(self).token_trees@.len(),
    {
        let expected_closer = match &opening_token.value {
            PreprocessingToken::Punctuator(Punctuator::LeftParen) => Punctuator::RightParen,
            PreprocessingToken::Punctuator(Punctuator::LeftBracket) => Punctuator::RightBracket,
            _ => Punctuator::RightBrace,
        };
        let opener = match &opening_token.value {
            PreprocessingToken::Punctuator(p) => *p,
            _ => Punctuator::LeftBrace,
        };
        let ghost close = closer_of(opening_token.value->Punctuator_0);
        let ghost goal = collect_group(self.token_trees@, self.expanding@, *opening_token, close, seq![]);
        let mut inner: Vec<Spanned<PreprocessingToken>> = Vec::new();
        let mut end = opening_token.end();
        loop
            invariant
                is_opener(opening_token.value),
                opening_token.value == PreprocessingToken::Punctuator(opener),
                expected_closer == close,
                close == closer_of(opening_token.value->Punctuator_0),
                goal == collect_group(old(self).token_trees@, old(self).expanding@, *opening_token, close, seq![]),
                collect_group(self.token_trees@, self.expanding@, *opening_token, close, tokens_view(inner@)) == goal,
                self.token_trees@.len() <= old(self).token_trees@.len(),
                self.file_id == old(self).file_id,
                self.output@ == old(self).output@,
                self.macros@ == old(self).macros@,
                self.respect_defined == old(self).respect_defined,
                self.budget == old(self).budget,
            decreases self.token_trees@.len(),
        {
            proof {
                lemma_collect_group_skip(self.token_trees@, self.expanding@, *opening_token, close, tokens_view(inner@));
                lemma_skip_markers_len(self.token_trees@, self.expanding@);
            }
            let token = match self.next_token_tree() {
                Some(t) => t,
                None => {
                    let report = UnmatchedDelimiter {
                        opening_delimiter_location: opening_token.location.duplicate(),
                        potential_closing_delimiter_location: Location {
                            range: end..end,
                            file_id: opening_token.location.file_id,
                        },
                        closing_delimiter: PreprocessingToken::Punctuator(expected_closer),
                    }.into_report();
                    proof {
                        let lv = labels_view(report.labels@);
                        assert(lv.len() == report.labels@.len());
                        assert(lv[0] == label_view(report.labels@[0]));
                        assert(lv[1] == label_view(report.labels@[1]));
                    }
                    return Err(report);
                },
            };
            let ghost rest = self.token_trees@;
            assert((seq![token] + rest).drop_first() =~= rest);
            match token {
                TokenTree::PreprocessorToken(t) => {
                    end = t.end();
                    let is_closer = match &t.value {
                        PreprocessingToken::Punctuator(p) => *p == expected_closer,
                        _ => false,
                    };
                    let is_nested = match &t.value {
                        PreprocessingToken::Punctuator(p) => *p == opener,
                        _ => false,
                    };
                    if is_closer {
                        let d = Delimited {
                            opener: copy_token(opening_token),
                            closer: Spanned::new(t.location, PreprocessingToken::Punctuator(expected_closer)),
                            inner_tokens: inner,
                        };
                        return Ok(Spanned::new(opening_token.location.duplicate(), PreprocessingToken::Delimited(Box::new(d))));
                    } else if is_nested {
                        proof {
                            lemma_collect_group_len(rest, self.expanding@, *opening_token, close, seq![]);
                        }
                        let nested = self.collect_until_closing_delimiter(opening_token, skip_macro_replacement)?;
                        proof {
                            lemma_tokens_view_push(inner@, nested);
                        }
                        inner.push(nested);
                    } else {
                        proof {
                            lemma_tokens_view_push(inner@, t);
                        }
                        inner.push(t);
                    }
                },
                _ => {},
            }
        }
    }
    /// Takes the next parenthesized group: the opener, closer and inner tokens of a
    /// delimited token, or of the group that a `(` opens (see `collect_group`); an error
    /// when neither comes next or the group is not closed.
    pub fn next_delimited(&mut self) -> (r: PResult<(Spanned<PreprocessingToken>, Spanned<PreprocessingToken>, Vec<Spanned<PreprocessingToken>>)>)
        ensures
            final(self).file_id == old(self).file_id,
            final(self).output@ == old(self).output@,
            final(self).macros@ == old(self).macros@,
            final(self).respect_defined == old(self).respect_defined,
            final(self).budget == old(self).budget,
            final(self).token_trees@.len() <= old(self).token_trees@.len(),
            ({
                let (t, rest, e) = next_significant(old(self).token_trees@, old(self).expanding@);
                match t {
                    Some(TokenTree::PreprocessorToken(p)) => if p.value == PreprocessingToken::Punctuator(Punctuator::LeftParen) {
                        match collect_group(rest, e, p, Punctuator::RightParen, seq![]) {
                            Some((inner, location, rest2, e2)) => {
                                &&& r is Ok
                                &&& spanned_view(r->Ok_0.0) == spanned_view(p)
                                &&& spanned_view(r->Ok_0.1) == Spanned {
                                    value: TokenView::Punctuator(Punctuator::RightParen),
                                    location,
                                }
                                &&& tokens_view(r->Ok_0.2@) == inner
                                &&& final(self).token_trees@ == rest2
                                &&& final(self).expanding@ == e2
                            },
                            None => r is Err,
                        }
                    } else if p.value is Delimited {
                        &&& r is Ok
                        &&& r->Ok_0.0 == p.value->Delimited_0.opener
                        &&& r->Ok_0.1 == p.value->Delimited_0.closer
                        &&& r->Ok_0.2 == p.value->Delimited_0.inner_tokens
                        &&& final(self).token_trees@ == rest
                        &&& final(self).expanding@ == e
                    } else {
                        r is Err
                    },
                    _ => r is Err,
                }
            }),
    {
        proof {
            lemma_next_significant_len(self.token_trees@, self.expanding@);
        }
        let paren = match self.next_non_whitespace() {
            Some(t) => t,
            None => {
                return Err(simple_error(&Location::new(), "expected a parenthesized group"));
            },
        };
        match paren {
            TokenTree::PreprocessorToken(t) => {
                let is_left_paren = match &t.value {
                    PreprocessingToken::Punctuator(Punctuator::LeftParen) => true,
                    _ => false,
                };
                if is_left_paren {
                    let group = self.collect_until_closing_delimiter(&t, true)?;
                    match group.value {
                        PreprocessingToken::Delimited(d) => {
                            let d = *d;
                            Ok((d.opener, d.closer, d.inner_tokens))
                        },
                        _ => Err(simple_error(&t.location, "expected a parenthesized group")),
                    }
                } else {
                    match t.value {
                        PreprocessingToken::Delimited(d) => {
                            let d = *d;
                            Ok((d.opener, d.closer, d.inner_tokens))
                        },
                        _ => Err(simple_error(&t.location, "expected a parenthesized group")),
                    }
                }
            },
            _ => Err(simple_error(&Location::new(), "expected a parenthesized group")),
        }
    }
    /// Records an object-like macro.
    pub fn handle_define_object(&mut self, macro_name: String, replacment_list: &Vec<Spanned<PreprocessingToken>>)
        ensures
            final(self).macros@ == old(self).macros@.insert(macro_name@, MacroView::Object(tokens_view(replacment_list@))),
            final(self).file_id == old(self).file_id,
            final(self).output@ == old(self).output@,
            final(self).token_trees@ == old(self).token_trees@,
            final(self).expanding@ == old(self).expanding@,
            final(self).respect_defined == old(self).respect_defined,
            final(self).budget == old(self).budget,
    {
        self.macros.insert(macro_name, MacroDefinition::Object(copy_tokens(replacment_list)));
    }

    /// Records a function-like macro whose parameters are the group `parameters`; an error
    /// when they do not form a parameter list (see `parse_parameters`).
    pub fn handle_define_function(
        &mut self,
        macro_name: String,
        parameters: Spanned<PreprocessingToken>,
        replacment_list: &Vec<Spanned<PreprocessingToken>>,
    ) -> (r: PResult<()>)
        ensures
            final(self).file_id == old(self).file_id,
            final(self).output@ == old(self).output@,
            final(self).token_trees@ == old(self).token_trees@,
            final(self).expanding@ == old(self).expanding@,
            final(self).respect_defined == old(self).respect_defined,
            final(self).budget == old(self).budget,
            r is Err ==> final(self).macros@ == old(self).macros@,
            match parameters.value {
                PreprocessingToken::Delimited(d) => if d.opener.value == PreprocessingToken::Punctuator(Punctuator::LeftParen) {
                    match params_from(split_spec(non_whitespace(d.inner_tokens@)), 0) {
                        Some((names, variadic)) => r is Ok && final(self).macros@ == old(self).macros@.insert(
                            macro_name@,
                            MacroView::Function(names, variadic, tokens_view(replacment_list@)),
                        ),
                        None => r is Err,
                    }
                } else {
                    r is Err
                },
                _ => r is Err,
            },
    {
        let parameters = self.parse_parameters(parameters)?;
        self.macros.insert(
            macro_name,
            MacroDefinition::Function { parameter_list: parameters, replacement_list: copy_tokens(replacment_list) },
        );
        Ok(())
    }

    /// Carries out `#define` and `#undef`; an error for any other directive.
    pub fn handle_control_line(&mut self, control_line: ControlLine) -> (r: PResult<()>)
        ensures
            final(self).file_id == old(self).file_id,
            final(self).output@ == old(self).output@,
            final(self).token_trees@ == old(self).token_trees@,
            final(self).expanding@ == old(self).expanding@,
            final(self).respect_defined == old(self).respect_defined,
            final(self).budget == old(self).budget,
            r is Err ==> final(self).macros@ == old(self).macros@,
            match control_line_effect(control_line, old(self).macros@) {
                Some(m) => r is Ok && final(self).macros@ == m,
                None => r is Err,
            },
    {
        match control_line {
            ControlLine::DefineFunction { macro_name, parameters, replacement_list } => {
                self.handle_define_function(macro_name, parameters, &replacement_list)?;
            },
            ControlLine::DefineObject { macro_name, replacement_list } => {
                self.handle_define_object(macro_name, &replacement_list);
            },
            ControlLine::Undefine(macro_name) => {
                self.macros.remove(macro_name.as_str());
            },
            _ => {
                return Err(simple_error(&Location::new(), "directive not supported here"));
            },
        }
        Ok(())
    }
    /// Expands every tree that is left, appending what comes out to `output`.
    pub fn expand(&mut self) -> (r: PResult<()>)
        ensures
            final(self).file_id == old(self).file_id,
            final(self).respect_defined == old(self).respect_defined,
            final(self).budget <= old(self).budget,
            ({
                let trees = old(self).token_trees@;
                &&& forall|i: int|
                    0 <= i < trees.len() ==> passes_tree(
                        #[trigger] trees[i],
                        old(self).macros@,
                        old(self).expanding@,
                        old(self).respect_defined,
                    )
                &&& old(self).budget >= trees.len()
            }) ==> {
                &&& r is Ok
                &&& tokens_view(final(self).output@) == tokens_view(old(self).output@) + tokens_view(
                    leaf_tokens(old(self).token_trees@),
                )
                &&& final(self).token_trees@.len() == 0
                &&& final(self).macros@ == old(self).macros@
                &&& final(self).expanding@ == old(self).expanding@
            },
            ({
                &&& queue_ok(old(self).token_trees@, old(self).macros@, old(self).expanding@, old(self).respect_defined, old(self).file_id)
                &&& old(self).budget >= queue_need(
                    old(self).token_trees@,
                    old(self).macros@,
                    old(self).expanding@,
                    old(self).respect_defined,
                    old(self).file_id,
                )
            }) ==> {
                &&& r is Ok
                &&& tokens_view(final(self).output@) == tokens_view(old(self).output@) + queue_out(
                    old(self).token_trees@,
                    old(self).macros@,
                    old(self).expanding@,
                    old(self).respect_defined,
                    old(self).file_id,
                )
            },
        decreases old(self).budget, 5int,
    {
        let ghost rd = self.respect_defined;
        let ghost fid = self.file_id;
        let ghost m0 = self.macros@;
        let ghost simple0 = ({
            &&& queue_ok(self.token_trees@, self.macros@, self.expanding@, rd, fid)
            &&& self.budget >= queue_need(self.token_trees@, self.macros@, self.expanding@, rd, fid)
        });
        let ghost goal = tokens_view(self.output@) + queue_out(self.token_trees@, self.macros@, self.expanding@, rd, fid);
        let ghost trees0 = self.token_trees@;
        let ghost plain = (forall|i: int|
            0 <= i < trees0.len() ==> passes_tree(
                #[trigger] trees0[i],
                self.macros@,
                self.expanding@,
                self.respect_defined,
            )) && self.budget >= trees0.len();
        let ghost k: int = 0;
        loop
            invariant
                self.file_id == old(self).file_id,
                self.respect_defined == old(self).respect_defined,
                self.budget <= old(self).budget,
                trees0 == old(self).token_trees@,
                plain == ((forall|i: int|
                    0 <= i < trees0.len() ==> passes_tree(
                        #[trigger] trees0[i],
                        old(self).macros@,
                        old(self).expanding@,
                        old(self).respect_defined,
                    )) && old(self).budget >= trees0.len()),
                plain ==> {
                    &&& 0 <= k <= trees0.len()
                    &&& self.token_trees@ == trees0.skip(k)
                    &&& self.budget == old(self).budget - k
                    &&& self.macros@ == old(self).macros@
                    &&& self.expanding@ == old(self).expanding@
                    &&& tokens_view(self.output@) == tokens_view(old(self).output@) + tokens_view(
                        leaf_tokens(trees0.take(k)),
                    )
                },
                rd == old(self).respect_defined,
                fid == old(self).file_id,
                m0 == old(self).macros@,
                simple0 == ({
                    &&& queue_ok(old(self).token_trees@, old(self).macros@, old(self).expanding@, rd, fid)
                    &&& old(self).budget >= queue_need(old(self).token_trees@, old(self).macros@, old(self).expanding@, rd, fid)
                }),
                goal == tokens_view(old(self).output@) + queue_out(
                    old(self).token_trees@,
                    old(self).macros@,
                    old(self).expanding@,
                    rd,
                    fid,
                ),
                simple0 ==> {
                    &&& queue_ok(self.token_trees@, self.macros@, self.expanding@, rd, fid)
                    &&& self.budget >= queue_need(self.token_trees@, self.macros@, self.expanding@, rd, fid)
                    &&& tokens_view(self.output@) + queue_out(self.token_trees@, self.macros@, self.expanding@, rd, fid) == goal
                },
            decreases self.budget,
        {
            let ghost out_before = self.output@;
            let ghost budget_before = self.budget;
            let ghost len_before = self.token_trees@.len();
            proof {
                if plain && k < trees0.len() {
                    assert(self.token_trees@[0] == trees0[k]);
                }
            }
            match self.expand_next(false)? {
                Some(tokens) => {
                    let mut tokens = tokens;
                    let ghost added = tokens@;
                    let ghost q_before = queue_out(self.token_trees@, self.macros@, self.expanding@, rd, fid);
                    self.output.append(&mut tokens);
                    proof {
                        lemma_tokens_view_add(out_before, added);
                        if simple0 {
                            assert(tokens_view(self.output@) + queue_out(self.token_trees@, self.macros@, self.expanding@, rd, fid)
                                =~= tokens_view(out_before) + (tokens_view(added) + queue_out(
                                self.token_trees@,
                                self.macros@,
                                self.expanding@,
                                rd,
                                fid,
                            )));
                        }
                        if plain {
                            let lt = leaf_tokens(trees0.take(k + 1));
                            assert(leaf_tokens(trees0.take(k + 1)) =~= leaf_tokens(trees0.take(k)).push(
                                trees0[k]->PreprocessorToken_0,
                            ));
                            lemma_tokens_view_push(leaf_tokens(trees0.take(k)), trees0[k]->PreprocessorToken_0);
                            assert(trees0.skip(k).drop_first() =~= trees0.skip(k + 1));
                            k = k + 1;
                        }
                    }
                },
                None => {
                    proof {
                        if plain {
                            assert(trees0.take(k) =~= trees0);
                        }
                        if simple0 {
                            assert(tokens_view(self.output@) + Seq::<Spanned<TokenView>>::empty() =~= tokens_view(self.output@));
                        }
                    }
                    return Ok(());
                },
            }
        }
    }

    /// Expands trees as `expand` does, appending what comes out to `output`, until an
    /// `#include` directive is next: takes it and gives its header name, so that the text of
    /// the header can be put in its place (see `include_source`); `None` when no tree is
    /// left.
    pub fn expand_until_include(&mut self) -> (r: PResult<Option<HeaderName>>)
        ensures
            final(self).file_id == old(self).file_id,
            final(self).respect_defined == old(self).respect_defined,
            final(self).budget <= old(self).budget,
            skip_markers(old(self).token_trees@, old(self).expanding@).0 matches Some(
                TokenTree::Directive(ControlLine::Include(h)),
            ) ==> {
                &&& r == Ok::<Option<HeaderName>, Report>(Some(h))
                &&& final(self).output@ == old(self).output@
                &&& final(self).token_trees@ == skip_markers(old(self).token_trees@, old(self).expanding@).1
                &&& final(self).expanding@ == skip_markers(old(self).token_trees@, old(self).expanding@).2
                &&& final(self).macros@ == old(self).macros@
            },
            ({
                &&& queue_ok(old(self).token_trees@, old(self).macros@, old(self).expanding@, old(self).respect_defined, old(self).file_id)
                &&& old(self).budget >= queue_need(
                    old(self).token_trees@,
                    old(self).macros@,
                    old(self).expanding@,
                    old(self).respect_defined,
                    old(self).file_id,
                )
            }) ==> {
                &&& r matches Ok(None)
                &&& tokens_view(final(self).output@) == tokens_view(old(self).output@) + queue_out(
                    old(self).token_trees@,
                    old(self).macros@,
                    old(self).expanding@,
                    old(self).respect_defined,
                    old(self).file_id,
                )
            },
        decreases old(self).budget, 5int,
    {
        let ghost rd = self.respect_defined;
        let ghost fid = self.file_id;
        let ghost simple0 = ({
            &&& queue_ok(self.token_trees@, self.macros@, self.expanding@, rd, fid)
            &&& self.budget >= queue_need(self.token_trees@, self.macros@, self.expanding@, rd, fid)
        });
        let ghost goal = tokens_view(self.output@) + queue_out(self.token_trees@, self.macros@, self.expanding@, rd, fid);
        let ghost first = true;
        let ghost inc0 = skip_markers(self.token_trees@, self.expanding@).0 matches Some(
            TokenTree::Directive(ControlLine::Include(_)),
        );
        loop
            invariant
                self.file_id == old(self).file_id,
                self.respect_defined == old(self).respect_defined,
                self.budget <= old(self).budget,
                inc0 == (skip_markers(old(self).token_trees@, old(self).expanding@).0 matches Some(
                    TokenTree::Directive(ControlLine::Include(_)),
                )),
                inc0 ==> first,
                rd == old(self).respect_defined,
                fid == old(self).file_id,
                first ==> {
                    &&& self.token_trees@ == old(self).token_trees@
                    &&& self.expanding@ == old(self).expanding@
                    &&& self.output@ == old(self).output@
                    &&& self.macros@ == old(self).macros@
                },
                simple0 == ({
                    &&& queue_ok(old(self).token_trees@, old(self).macros@, old(self).expanding@, rd, fid)
                    &&& old(self).budget >= queue_need(old(self).token_trees@, old(self).macros@, old(self).expanding@, rd, fid)
                }),
                goal == tokens_view(old(self).output@) + queue_out(
                    old(self).token_trees@,
                    old(self).macros@,
                    old(self).expanding@,
                    rd,
                    fid,
                ),
                simple0 ==> {
                    &&& queue_ok(self.token_trees@, self.macros@, self.expanding@, rd, fid)
                    &&& self.budget >= queue_need(self.token_trees@, self.macros@, self.expanding@, rd, fid)
                    &&& tokens_view(self.output@) + queue_out(self.token_trees@, self.macros@, self.expanding@, rd, fid) == goal
                },
            decreases self.budget,
        {
            let ghost out_before = self.output@;
            let ghost mc = self.macros@;
            proof {
                lemma_skip_markers_queue(self.token_trees@, mc, self.expanding@, rd, fid);
            }
            let tt = match self.next_token_tree() {
                Some(tt) => tt,
                None => {
                    proof {
                        if simple0 {
                            assert(tokens_view(self.output@) + Seq::<Spanned<TokenView>>::empty() =~= tokens_view(self.output@));
                        }
                    }
                    return Ok(None);
                },
            };
            match tt {
                TokenTree::Directive(ControlLine::Include(h)) => {
                    return Ok(Some(h));
                },
                other => {
                    self.token_trees.prepend(other);
                },
            }
            proof {
                first = false;
            }
            match self.expand_next(false)? {
                Some(tokens) => {
                    let mut tokens = tokens;
                    let ghost added = tokens@;
                    self.output.append(&mut tokens);
                    proof {
                        lemma_tokens_view_add(out_before, added);
                        if simple0 {
                            assert(tokens_view(self.output@) + queue_out(self.token_trees@, self.macros@, self.expanding@, rd, fid)
                                =~= tokens_view(out_before) + (tokens_view(added) + queue_out(
                                self.token_trees@,
                                self.macros@,
                                self.expanding@,
                                rd,
                                fid,
                            )));
                        }
                    }
                },
                None => {
                    proof {
                        if simple0 {
                            assert(tokens_view(self.output@) + Seq::<Spanned<TokenView>>::empty() =~= tokens_view(self.output@));
                        }
                    }
                    return Ok(None);
                },
            }
        }
    }

    /// Puts the trees of `source`, the text of an included header read as file `file_id`, in
    /// front of the trees that are left (see `expand_until_include`).
    pub fn include_source(&mut self, file_id: usize, source: &str) -> (r: PResult<()>)
        requires
            4 * source@.len() <= usize::MAX,
        ensures
            final(self).file_id == old(self).file_id,
            final(self).respect_defined == old(self).respect_defined,
            final(self).output@ == old(self).output@,
            final(self).macros@ == old(self).macros@,
            final(self).expanding@ == old(self).expanding@,
            final(self).budget == old(self).budget,
            match all_tokens(prelex_spec(source@, 0, file_id), true, file_id) {
                None => r is Err && final(self).token_trees@ == old(self).token_trees@,
                Some(ts) => exists|toks: Seq<Spanned<PreprocessingToken>>, trees: Option<Seq<TokenTree>>|
                    tokens_view(toks) == ts && #[trigger] included(
                        toks,
                        trees,
                        old(self).token_trees@,
                        final(self).token_trees@,
                        r,
                    ),
            },
    {
        let tokens = lex(file_id, source)?;
        let ghost tv = tokens@;
        let preprocessor = match Preprocessor::new(file_id, tokens.as_slice()) {
            Ok(p) => p,
            Err(e) => {
                proof {
                    assert(included(tv, None, self.token_trees@, self.token_trees@, Err::<(), Report>(e)));
                }
                return Err(e);
            },
        };
        let ghost trees = preprocessor.token_trees@;
        let ghost before = self.token_trees@;
        self.token_trees.prepend_extend(preprocessor.token_trees);
        proof {
            assert(included(tv, Some(trees), before, self.token_trees@, Ok::<(), Report>(())));
        }
        Ok(())
    }

    /// Expands trees until one gives tokens, and hands those out; `None` when no tree is left.
    #[verifier::rlimit(50)]
    pub fn expand_next(&mut self, skip_macro_replacement: bool) -> (r: PResult<Option<Vec<Spanned<PreprocessingToken>>>>)
        ensures
            final(self).file_id == old(self).file_id,
            final(self).respect_defined == old(self).respect_defined,
            final(self).output@ == old(self).output@,
            final(self).budget <= old(self).budget,
            r matches Ok(Some(_)) ==> final(self).budget < old(self).budget,
            old(self).token_trees@.len() == 0 ==> {
                &&& r matches Ok(None)
                &&& final(self).token_trees@ == old(self).token_trees@
                &&& final(self).macros@ == old(self).macros@
                &&& final(self).expanding@ == old(self).expanding@
                &&& final(self).budget == old(self).budget
            },
            ({
                let trees = old(self).token_trees@;
                &&& trees.len() > 0
                &&& passes_tree(trees[0], old(self).macros@, old(self).expanding@, old(self).respect_defined)
                &&& old(self).budget >= 1
            }) ==> {
                &&& r matches Ok(Some(v))
                &&& tokens_view(r->Ok_0->Some_0@) == seq![spanned_view(old(self).token_trees@[0]->PreprocessorToken_0)]
                &&& final(self).token_trees@ == old(self).token_trees@.drop_first()
                &&& final(self).macros@ == old(self).macros@
                &&& final(self).expanding@ == old(self).expanding@
                &&& final(self).budget == old(self).budget - 1
            },
            ({
                &&& !skip_macro_replacement
                &&& queue_ok(old(self).token_trees@, old(self).macros@, old(self).expanding@, old(self).respect_defined, old(self).file_id)
                &&& old(self).budget >= queue_need(
                    old(self).token_trees@,
                    old(self).macros@,
                    old(self).expanding@,
                    old(self).respect_defined,
                    old(self).file_id,
                )
            }) ==> {
                let out0 = queue_out(
                    old(self).token_trees@,
                    old(self).macros@,
                    old(self).expanding@,
                    old(self).respect_defined,
                    old(self).file_id,
                );
                &&& r is Ok
                &&& r matches Ok(None) ==> out0 == Seq::<Spanned<TokenView>>::empty() && final(self).token_trees@.len() == 0
                &&& r matches Ok(Some(v)) ==> {
                    &&& out0 == tokens_view(v@) + queue_out(
                        final(self).token_trees@,
                        final(self).macros@,
                        final(self).expanding@,
                        final(self).respect_defined,
                        final(self).file_id,
                    )
                    &&& queue_ok(
                        final(self).token_trees@,
                        final(self).macros@,
                        final(self).expanding@,
                        final(self).respect_defined,
                        final(self).file_id,
                    )
                    &&& final(self).budget >= queue_need(
                        final(self).token_trees@,
                        final(self).macros@,
                        final(self).expanding@,
                        final(self).respect_defined,
                        final(self).file_id,
                    )
                }
            },
        decreases old(self).budget, 4int,
    {
        let ghost rd = self.respect_defined;
        let ghost fid = self.file_id;
        let ghost m0 = self.macros@;
        let ghost simple0 = ({
            &&& !skip_macro_replacement
            &&& queue_ok(self.token_trees@, self.macros@, self.expanding@, rd, fid)
            &&& self.budget >= queue_need(self.token_trees@, self.macros@, self.expanding@, rd, fid)
        });
        let ghost out0 = queue_out(self.token_trees@, self.macros@, self.expanding@, rd, fid);
        let ghost passes0 = ({
            let trees = self.token_trees@;
            &&& trees.len() > 0
            &&& passes_tree(trees[0], self.macros@, self.expanding@, self.respect_defined)
            &&& self.budget >= 1
        });
        loop
            invariant
                passes0 == ({
                    let trees = old(self).token_trees@;
                    &&& trees.len() > 0
                    &&& passes_tree(trees[0], old(self).macros@, old(self).expanding@, old(self).respect_defined)
                    &&& old(self).budget >= 1
                }),
                passes0 ==> self.budget == old(self).budget,
                self.file_id == old(self).file_id,
                self.respect_defined == old(self).respect_defined,
                self.output@ == old(self).output@,
                self.budget <= old(self).budget,
                self.budget == old(self).budget ==> {
                    &&& self.token_trees@ == old(self).token_trees@
                    &&& self.macros@ == old(self).macros@
                    &&& self.expanding@ == old(self).expanding@
                },
                old(self).token_trees@.len() == 0 ==> self.budget == old(self).budget,
                rd == old(self).respect_defined,
                fid == old(self).file_id,
                m0 == old(self).macros@,
                simple0 == ({
                    &&& !skip_macro_replacement
                    &&& queue_ok(old(self).token_trees@, old(self).macros@, old(self).expanding@, rd, fid)
                    &&& old(self).budget >= queue_need(old(self).token_trees@, old(self).macros@, old(self).expanding@, rd, fid)
                }),
                out0 == queue_out(old(self).token_trees@, old(self).macros@, old(self).expanding@, rd, fid),
                simple0 ==> {
                    &&& queue_ok(self.token_trees@, self.macros@, self.expanding@, rd, fid)
                    &&& queue_out(self.token_trees@, self.macros@, self.expanding@, rd, fid) == out0
                    &&& self.budget >= queue_need(self.token_trees@, self.macros@, self.expanding@, rd, fid)
                },
            decreases self.budget,
        {
            let ghost trees = self.token_trees@;
            let ghost first_pass = self.budget == old(self).budget;
            let ghost e_before = self.expanding@;
            let ghost mc = self.macros@;
            proof {
                lemma_skip_markers_len(self.token_trees@, self.expanding@);
                lemma_skip_markers_queue(self.token_trees@, mc, self.expanding@, rd, fid);
            }
            let tt = match self.next_token_tree() {
                Some(tt) => tt,
                None => {
                    return Ok(None);
                },
            };
            if self.budget == 0 {
                return Err(simple_error(&Location::new(), "macro expansion took too many steps"));
            }
            self.budget = self.budget - 1;
            let ghost tt0 = tt;
            let ghost rest = self.token_trees@;
            let ghost e1 = self.expanding@;
            let ghost budget1 = self.budget;
            proof {
                if simple0 && (tt0 is If || tt0 is Elif) {
                    let cond = if tt0 is If { tt0->If_condition } else { tt0->Elif_condition };
                    lemma_cond_value(cond@, mc, fid);
                }
                if simple0 {
                    lemma_queue_front(tt0, rest, mc, e1, rd, fid);
                    if is_call(tt0, rest, mc, e1, rd) {
                        let t = tt0->PreprocessorToken_0;
                        let (inner, _, e2c) = call_group(rest, e1)->0;
                        lemma_args_need(split_view(inner), mc, e2c, fid, self.budget as int);
                    }
                }
            }
            match self.expand_token_tree(tt, skip_macro_replacement)? {
                ExpandControlFlow::Return(tokens) => {
                    proof {
                        if tt0 is PreprocessorToken {
                            lemma_tokens_view_single(tt0->PreprocessorToken_0);
                        }
                        if simple0 {
                            if tt0 is Directive || tt0 is Endif {
                                assert(tokens@.len() == 0);
                                lemma_tokens_view(tokens@);
                                assert(tokens_view(tokens@) + queue_out(rest, self.macros@, e1, rd, fid) =~= queue_out(
                                    rest,
                                    self.macros@,
                                    e1,
                                    rd,
                                    fid,
                                ));
                            } else if is_defined_op(spanned_view(tt0->PreprocessorToken_0), rd) {
                                lemma_tokens_view(tokens@);
                            } else {
                                assert(tt0 is PreprocessorToken);
                                assert(!is_call(tt0, rest, mc, e1, rd));
                                assert(self.token_trees@ == rest);
                            }
                        }
                    }
                    return Ok(Some(tokens));
                },
                ExpandControlFlow::Rescan(token_tree) => {
                    let ghost tr = token_tree;
                    self.token_trees.prepend(token_tree);
                    proof {
                        if simple0 && (tt0 is IfDef || tt0 is IfNDef || tt0 is If || tt0 is Elif) {
                            assert(tr == group_opposition(tt0));
                        }
                        if simple0 && tt0 is PreprocessorToken {
                            lemma_queue_front(tr, rest, mc, e1, rd, fid);
                            let t = tt0->PreprocessorToken_0;
                            assert(object_call(t, mc, e1, rd, fid));
                            let o = object_output(mc[t.value->Identifier_0@]->Object_0, fid)->0;
                            let out = tr->Internal_0->MacroExpansion_1;
                            assert(tokens_view(out@) == relocated(o, t.location));
                            lemma_tokens_view(out@);
                        }
                    }
                },
                ExpandControlFlow::RescanMany(token_trees) => {
                    if token_trees.len() == 0 {
                        proof {
                            if simple0 {
                                assert(token_trees@ + rest =~= rest);
                                lemma_tokens_view(Seq::<Spanned<PreprocessingToken>>::empty());
                                assert(tokens_view(Seq::<Spanned<PreprocessingToken>>::empty()) + queue_out(
                                    rest,
                                    self.macros@,
                                    e1,
                                    rd,
                                    fid,
                                ) =~= queue_out(rest, self.macros@, e1, rd, fid));
                            }
                        }
                        return Ok(Some(Vec::new()));
                    }
                    let ghost v = token_trees@;
                    let ghost rest2 = self.token_trees@;
                    let ghost e2 = self.expanding@;
                    self.token_trees.prepend_extend(token_trees);
                    proof {
                        if simple0 && tt0 is PreprocessorToken {
                            let t = tt0->PreprocessorToken_0;
                            assert(is_call(tt0, rest, mc, e1, rd));
                            let (o, r2, ee, n) = call_output(t, rest, mc, e1, rd, fid)->0;

                            assert(r2 == rest2 && ee == e2);
                            let me = v[0];
                            let out = me->Internal_0->MacroExpansion_1;
                            assert(tokens_view(out@) == relocated(o, t.location));
                            lemma_tokens_view(out@);
                            assert(v =~= seq![me]);
                            lemma_queue_front(me, rest2, mc, e2, rd, fid);
                        }
                        if simple0 && (tt0 is IfDef || tt0 is IfNDef || tt0 is Else || tt0 is If || tt0 is Elif) {
                            assert(v == group_body(tt0));
                        }
                        if simple0 && tt0 is Internal {
                            let name = tt0->Internal_0->MacroExpansion_0;
                            let toks = tt0->Internal_0->MacroExpansion_1;
                            let leaves = toks@.map_values(|x: Spanned<PreprocessingToken>| TokenTree::PreprocessorToken(x));
                            let fin = v.last();
                            assert(v =~= seq![v[0]] + (leaves + (seq![fin])));
                            assert(v + rest =~= seq![v[0]] + (leaves + (seq![fin] + rest)));
                            let q = v + rest;
                            assert(q[0] == v[0]);
                            assert(q.drop_first() =~= leaves + (seq![fin] + rest));
                            lemma_leaves_queue(toks@, seq![fin] + rest, mc, e1.insert(name@), rd, fid, mc.dom().len());
                            let q3 = seq![fin] + rest;
                            assert(q3[0] == fin);
                            assert(q3.drop_first() =~= rest);
                            assert(e1.insert(name@).remove(name@) =~= e1);
                            lemma_tokens_view(toks@);
                        }
                    }
                },
            }
        }
    }

    /// Expands `tt` and, when it is to be looked at again, what follows, until tokens come out.
    #[verifier::rlimit(50)]
    #[verifier::spinoff_prover]
    pub fn fully_expand_token_tree(&mut self, tt: TokenTree, skip_macro_replacement: bool) -> (r: PResult<
        Vec<Spanned<PreprocessingToken>>,
    >)
        ensures
            final(self).file_id == old(self).file_id,
            final(self).respect_defined == old(self).respect_defined,
            final(self).output@ == old(self).output@,
            passes_tree(tt, old(self).macros@, old(self).expanding@, old(self).respect_defined) ==> {
                &&& r matches Ok(v)
                &&& tokens_view(r->Ok_0@) == seq![spanned_view(tt->PreprocessorToken_0)]
                &&& final(self).token_trees@ == old(self).token_trees@
                &&& final(self).macros@ == old(self).macros@
                &&& final(self).expanding@ == old(self).expanding@
            },
            ({
                let q = seq![tt] + old(self).token_trees@;
                &&& !skip_macro_replacement
                &&& !is_marker(tt)
                &&& queue_ok(q, old(self).macros@, old(self).expanding@, old(self).respect_defined, old(self).file_id)
                &&& old(self).budget + 1 >= queue_need(
                    q,
                    old(self).macros@,
                    old(self).expanding@,
                    old(self).respect_defined,
                    old(self).file_id,
                )
            }) ==> {
                &&& r is Ok
                &&& queue_out(
                    seq![tt] + old(self).token_trees@,
                    old(self).macros@,
                    old(self).expanding@,
                    old(self).respect_defined,
                    old(self).file_id,
                ) == tokens_view(r->Ok_0@) + queue_out(
                    final(self).token_trees@,
                    final(self).macros@,
                    final(self).expanding@,
                    final(self).respect_defined,
                    final(self).file_id,
                )
                &&& queue_ok(
                    final(self).token_trees@,
                    final(self).macros@,
                    final(self).expanding@,
                    final(self).respect_defined,
                    final(self).file_id,
                )
                &&& final(self).budget >= queue_need(
                    final(self).token_trees@,
                    final(self).macros@,
                    final(self).expanding@,
                    final(self).respect_defined,
                    final(self).file_id,
                )
            },
        decreases old(self).budget, 6int,
    {
        let ghost tt0 = tt;
        let ghost rest = self.token_trees@;
        let ghost mc = self.macros@;
        let ghost e1 = self.expanding@;
        let ghost rd = self.respect_defined;
        let ghost fid = self.file_id;
        let ghost simple0 = ({
            &&& !skip_macro_replacement
            &&& !is_marker(tt)
            &&& queue_ok(seq![tt] + rest, mc, e1, rd, fid)
            &&& self.budget + 1 >= queue_need(seq![tt] + rest, mc, e1, rd, fid)
        });
        proof {
            if simple0 && (tt0 is If || tt0 is Elif) {
                let cond = if tt0 is If { tt0->If_condition } else { tt0->Elif_condition };
                lemma_cond_value(cond@, mc, fid);
            }
            if simple0 {
                lemma_queue_front(tt0, rest, mc, e1, rd, fid);
                if is_call(tt0, rest, mc, e1, rd) {
                    let (inner, _, e2c) = call_group(rest, e1)->0;
                    lemma_args_need(split_view(inner), mc, e2c, fid, self.budget as int);
                }
            }
        }
        match self.expand_token_tree(tt, skip_macro_replacement)? {
            ExpandControlFlow::Return(spanneds) => {
                proof {
                    if tt0 is PreprocessorToken {
                        lemma_tokens_view_single(tt0->PreprocessorToken_0);
                    }
                    if simple0 {
                        if tt0 is Directive || tt0 is Endif {
                            lemma_tokens_view(spanneds@);
                            assert(tokens_view(spanneds@) + queue_out(rest, self.macros@, e1, rd, fid) =~= queue_out(
                                rest,
                                self.macros@,
                                e1,
                                rd,
                                fid,
                            ));
                        } else if is_defined_op(spanned_view(tt0->PreprocessorToken_0), rd) {
                            lemma_tokens_view(spanneds@);
                        } else {
                            assert(tt0 is PreprocessorToken);
                            assert(!is_call(tt0, rest, mc, e1, rd));
                        }
                    }
                }
                Ok(spanneds)
            },
            ExpandControlFlow::Rescan(token_tree) => {
                let ghost tr = token_tree;
                self.token_trees.prepend(token_tree);
                proof {
                    if simple0 && (tt0 is IfDef || tt0 is IfNDef || tt0 is If || tt0 is Elif) {
                        assert(tr == group_opposition(tt0));
                    }
                    if simple0 && tt0 is PreprocessorToken {
                        lemma_queue_front(tr, rest, mc, e1, rd, fid);
                        let t = tt0->PreprocessorToken_0;
                        assert(object_call(t, mc, e1, rd, fid));
                        let o = object_output(mc[t.value->Identifier_0@]->Object_0, fid)->0;
                        let out = tr->Internal_0->MacroExpansion_1;
                        assert(tokens_view(out@) == relocated(o, t.location));
                        lemma_tokens_view(out@);
                    }
                }
                match self.expand_next(skip_macro_replacement)? {
                    Some(v) => Ok(v),
                    None => {
                        proof {
                            lemma_tokens_view(Seq::<Spanned<PreprocessingToken>>::empty());
                        }
                        Ok(Vec::new())
                    },
                }
            },
            ExpandControlFlow::RescanMany(token_trees) => {
                if token_trees.len() == 0 {
                    proof {
                        if simple0 {
                            assert(token_trees@ + rest =~= rest);
                            lemma_tokens_view(Seq::<Spanned<PreprocessingToken>>::empty());
                            assert(tokens_view(Seq::<Spanned<PreprocessingToken>>::empty()) + queue_out(
                                rest,
                                self.macros@,
                                e1,
                                rd,
                                fid,
                            ) =~= queue_out(rest, self.macros@, e1, rd, fid));
                        }
                    }
                    Ok(Vec::new())
                } else {
                    let ghost v = token_trees@;
                    let ghost rest2 = self.token_trees@;
                    let ghost e2 = self.expanding@;
                    self.token_trees.prepend_extend(token_trees);
                    proof {
                        if simple0 && tt0 is PreprocessorToken {
                            let t = tt0->PreprocessorToken_0;
                            assert(is_call(tt0, rest, mc, e1, rd));
                            let (o, r2, ee, n) = call_output(t, rest, mc, e1, rd, fid)->0;
                            assert(r2 == rest2 && ee == e2);
                            let me = v[0];
                            let out = me->Internal_0->MacroExpansion_1;
                            assert(tokens_view(out@) == relocated(o, t.location));
                            lemma_tokens_view(out@);
                            assert(v =~= seq![me]);
                            lemma_queue_front(me, rest2, mc, e2, rd, fid);
                        }
                        if simple0 && (tt0 is IfDef || tt0 is IfNDef || tt0 is Else || tt0 is If || tt0 is Elif) {
                            assert(v == group_body(tt0));
                        }
                        if simple0 && tt0 is Internal {
                            let name = tt0->Internal_0->MacroExpansion_0;
                            let toks = tt0->Internal_0->MacroExpansion_1;
                            let leaves = toks@.map_values(|x: Spanned<PreprocessingToken>| TokenTree::PreprocessorToken(x));
                            let fin = v.last();
                            assert(v =~= seq![v[0]] + (leaves + (seq![fin])));
                            assert(v + rest =~= seq![v[0]] + (leaves + (seq![fin] + rest)));
                            let q = v + rest;
                            assert(q[0] == v[0]);
                            assert(q.drop_first() =~= leaves + (seq![fin] + rest));
                            lemma_leaves_queue(toks@, seq![fin] + rest, mc, e1.insert(name@), rd, fid, mc.dom().len());
                            let q3 = seq![fin] + rest;
                            assert(q3[0] == fin);
                            assert(q3.drop_first() =~= rest);
                            assert(e1.insert(name@).remove(name@) =~= e1);
                            lemma_tokens_view(toks@);
                        }
                    }
                    match self.expand_next(skip_macro_replacement)? {
                        Some(v) => Ok(v),
                        None => {
                            proof {
                                lemma_tokens_view(Seq::<Spanned<PreprocessingToken>>::empty());
                            }
                            Ok(Vec::new())
                        },
                    }
                }
            },
        }
    }

    /// One step of expansion of `tt`.
    pub fn expand_token_tree(&mut self, tt: TokenTree, skip_macro_replacement: bool) -> (r: PResult<ExpandControlFlow>)
        ensures
            final(self).file_id == old(self).file_id,
            final(self).respect_defined == old(self).respect_defined,
            final(self).output@ == old(self).output@,
            final(self).budget == old(self).budget,
            !(tt is Directive) ==> final(self).macros@ == old(self).macros@,
            !(tt matches TokenTree::PreprocessorToken(x) && x.value is Identifier) ==> {
                &&& final(self).token_trees@ == old(self).token_trees@
                &&& final(self).expanding@ == old(self).expanding@
            },
            match tt {
                TokenTree::Directive(ControlLine::Error(loc, msg)) => {
                    &&& r matches Err(e)
                    &&& r->Err_0.severity == DiagnosticSeverity::Error
                    &&& r->Err_0.title@ == "Encountered error directive"@
                    &&& labels_view(r->Err_0.labels@) == match msg {
                        Some(m) => seq![
                            (LabelKind::Primary, loc, ""@),
                            (LabelKind::Secondary, m.location, "Error message provided"@),
                        ],
                        None => seq![(LabelKind::Primary, loc, ""@)],
                    }
                },
                TokenTree::Directive(c) => if c is Include {
                    r is Err
                } else {
                    match control_line_effect(c, old(self).macros@) {
                        Some(m) => r matches Ok(ExpandControlFlow::Return(v)) && v@.len() == 0 && final(self).macros@
                            == m,
                        None => r is Err,
                    }
                },
                TokenTree::PreprocessorToken(t) => match t.value {
                    PreprocessingToken::Delimited(d) => r matches Ok(ExpandControlFlow::RescanMany(v)) && v@
                        == seq![TokenTree::PreprocessorToken(d.opener)] + d.inner_tokens@.map_values(
                        |x: Spanned<PreprocessingToken>| TokenTree::PreprocessorToken(x),
                    ) + seq![TokenTree::PreprocessorToken(d.closer)],
                    PreprocessingToken::Identifier(id) => if old(self).respect_defined && id@ == "defined"@ {
                        match defined_result(old(self).token_trees@, old(self).expanding@, old(self).macros@, t.location) {
                            Some((v, rest, e)) => r matches Ok(ExpandControlFlow::Return(out)) && tokens_view(out@) == v
                                && final(self).token_trees@ == rest && final(self).expanding@ == e,
                            None => r is Err,
                        }
                    } else if old(self).expanding@.contains(id@) {
                        &&& r matches Ok(ExpandControlFlow::Return(out))
                        &&& tokens_view(r->Ok_0->Return_0@) == seq![
                            Spanned { value: TokenView::BlueIdentifier(id@), location: t.location },
                        ]
                        &&& final(self).token_trees@ == old(self).token_trees@
                        &&& final(self).expanding@ == old(self).expanding@
                    } else if !skip_macro_replacement {
                        identifier_outcome(*old(self), *final(self), t.location, id@, r)
                    } else {
                        &&& r matches Ok(ExpandControlFlow::Return(out))
                        &&& r->Ok_0->Return_0@ == seq![t]
                        &&& final(self).token_trees@ == old(self).token_trees@
                        &&& final(self).expanding@ == old(self).expanding@
                    },
                    _ => r matches Ok(ExpandControlFlow::Return(out)) && out@ == seq![t],
                },
                TokenTree::Internal(InternalLeaf::MacroExpansion(name, toks)) => {
                    &&& r matches Ok(ExpandControlFlow::RescanMany(v))
                    &&& r->Ok_0->RescanMany_0@.len() == toks@.len() + 2
                    &&& r->Ok_0->RescanMany_0@[0] matches TokenTree::Internal(InternalLeaf::BeginExpandingMacro(n))
                        && n@ == name@
                    &&& r->Ok_0->RescanMany_0@.last() matches TokenTree::Internal(
                        InternalLeaf::FinishExpandingMacro(n),
                    ) && n@ == name@
                    &&& forall|i: int|
                        0 <= i < toks@.len() ==> r->Ok_0->RescanMany_0@[i + 1] == TokenTree::PreprocessorToken(
                            #[trigger] toks@[i],
                        )
                },
                TokenTree::IfDef { macro_name, body, opposition } => if old(self).macros@.contains_key(macro_name@) {
                    r matches Ok(ExpandControlFlow::RescanMany(v)) && v == body
                } else {
                    r matches Ok(ExpandControlFlow::Rescan(t)) && t == *opposition
                },
                TokenTree::IfNDef { macro_name, body, opposition } => if !old(self).macros@.contains_key(macro_name@) {
                    r matches Ok(ExpandControlFlow::RescanMany(v)) && v == body
                } else {
                    r matches Ok(ExpandControlFlow::Rescan(t)) && t == *opposition
                },
                TokenTree::If { condition, body, opposition } => {
                    &&& r is Ok ==> (r matches Ok(ExpandControlFlow::RescanMany(v)) && v == body) || (r matches Ok(
                        ExpandControlFlow::Rescan(t),
                    ) && t == *opposition)
                    &&& (forall|i: int| 0 <= i < condition@.len() ==> !is_control_line(#[trigger] condition@[i])) ==> exists|
                        q: Seq<TokenTree>,
                        b: PResult<bool>,
                    |
                        #![trigger leaves_for(q, condition@), condition_by_queue(q, old(self).macros@, old(self).file_id, old(self).budget as int, b)]
                        {
                            &&& leaves_for(q, condition@)
                            &&& condition_by_queue(q, old(self).macros@, old(self).file_id, old(self).budget as int, b)
                            &&& b == Ok::<bool, Report>(true) ==> (r matches Ok(ExpandControlFlow::RescanMany(v)) && v == body)
                            &&& b == Ok::<bool, Report>(false) ==> (r matches Ok(ExpandControlFlow::Rescan(t)) && t == *opposition)
                            &&& b is Err ==> r is Err
                        }
                    &&& plain_condition(condition@, old(self).macros@) && old(self).budget > condition@.len() ==> exists|
                        b: PResult<bool>,
                    |
                        #![trigger condition_outcome(condition@, b)]
                        {
                            &&& condition_outcome(condition@, b)
                            &&& b == Ok::<bool, Report>(true) ==> (r matches Ok(ExpandControlFlow::RescanMany(v)) && v == body)
                            &&& b == Ok::<bool, Report>(false) ==> (r matches Ok(ExpandControlFlow::Rescan(t)) && t == *opposition)
                            &&& b is Err ==> r is Err
                        }
                    &&& ({
                        &&& forall|i: int| 0 <= i < condition@.len() ==> !is_control_line(#[trigger] condition@[i])
                        &&& plain_ok(tokens_view(condition@), old(self).macros@, Set::<Seq<char>>::empty(), true, old(self).file_id)
                        &&& old(self).budget > plain_need(tokens_view(condition@), old(self).macros@, Set::<Seq<char>>::empty(), true, old(self).file_id)
                    }) ==> exists|b: PResult<bool>|
                        #![trigger condition_value(plain_out(tokens_view(condition@), old(self).macros@, Set::<Seq<char>>::empty(), true, old(self).file_id), b)]
                        {
                            &&& condition_value(plain_out(tokens_view(condition@), old(self).macros@, Set::<Seq<char>>::empty(), true, old(self).file_id), b)
                            &&& b == Ok::<bool, Report>(true) ==> (r matches Ok(ExpandControlFlow::RescanMany(v)) && v == body)
                            &&& b == Ok::<bool, Report>(false) ==> (r matches Ok(ExpandControlFlow::Rescan(t)) && t == *opposition)
                            &&& b is Err ==> r is Err
                        }
                },
                TokenTree::Elif { condition, body, opposition } => {
                    &&& r is Ok ==> (r matches Ok(ExpandControlFlow::RescanMany(v)) && v == body) || (r matches Ok(
                        ExpandControlFlow::Rescan(t),
                    ) && t == *opposition)
                    &&& (forall|i: int| 0 <= i < condition@.len() ==> !is_control_line(#[trigger] condition@[i])) ==> exists|
                        q: Seq<TokenTree>,
                        b: PResult<bool>,
                    |
                        #![trigger leaves_for(q, condition@), condition_by_queue(q, old(self).macros@, old(self).file_id, old(self).budget as int, b)]
                        {
                            &&& leaves_for(q, condition@)
                            &&& condition_by_queue(q, old(self).macros@, old(self).file_id, old(self).budget as int, b)
                            &&& b == Ok::<bool, Report>(true) ==> (r matches Ok(ExpandControlFlow::RescanMany(v)) && v == body)
                            &&& b == Ok::<bool, Report>(false) ==> (r matches Ok(ExpandControlFlow::Rescan(t)) && t == *opposition)
                            &&& b is Err ==> r is Err
                        }
                    &&& plain_condition(condition@, old(self).macros@) && old(self).budget > condition@.len() ==> exists|
                        b: PResult<bool>,
                    |
                        #![trigger condition_outcome(condition@, b)]
                        {
                            &&& condition_outcome(condition@, b)
                            &&& b == Ok::<bool, Report>(true) ==> (r matches Ok(ExpandControlFlow::RescanMany(v)) && v == body)
                            &&& b == Ok::<bool, Report>(false) ==> (r matches Ok(ExpandControlFlow::Rescan(t)) && t == *opposition)
                            &&& b is Err ==> r is Err
                        }
                    &&& ({
                        &&& forall|i: int| 0 <= i < condition@.len() ==> !is_control_line(#[trigger] condition@[i])
                        &&& plain_ok(tokens_view(condition@), old(self).macros@, Set::<Seq<char>>::empty(), true, old(self).file_id)
                        &&& old(self).budget > plain_need(tokens_view(condition@), old(self).macros@, Set::<Seq<char>>::empty(), true, old(self).file_id)
                    }) ==> exists|b: PResult<bool>|
                        #![trigger condition_value(plain_out(tokens_view(condition@), old(self).macros@, Set::<Seq<char>>::empty(), true, old(self).file_id), b)]
                        {
                            &&& condition_value(plain_out(tokens_view(condition@), old(self).macros@, Set::<Seq<char>>::empty(), true, old(self).file_id), b)
                            &&& b == Ok::<bool, Report>(true) ==> (r matches Ok(ExpandControlFlow::RescanMany(v)) && v == body)
                            &&& b == Ok::<bool, Report>(false) ==> (r matches Ok(ExpandControlFlow::Rescan(t)) && t == *opposition)
                            &&& b is Err ==> r is Err
                        }
                },
                TokenTree::Else { body, opposition } => r matches Ok(ExpandControlFlow::RescanMany(v)) && v == body,
                _ => r matches Ok(ExpandControlFlow::Return(out)) && out@.len() == 0,
            },
        decreases old(self).budget, 3int,
    {
        match tt {
            TokenTree::Directive(ControlLine::Error(range, message)) => {
                Err(ErrorDirective(range, message).into_report())
            },
            TokenTree::Directive(ControlLine::Include(header_name)) => {
                let location = match &header_name {
                    HeaderName::Q(name) => name.location.duplicate(),
                    HeaderName::H(tokens) => {
                        if tokens.len() > 0 {
                            tokens[0].location.duplicate()
                        } else {
                            Location::new()
                        }
                    },
                };
                Err(simple_error(&location, "#include needs the text of its header (see expand_until_include)"))
            },
            TokenTree::Directive(control_line) => {
                self.handle_control_line(control_line)?;
                Ok(ExpandControlFlow::Return(Vec::new()))
            },
            TokenTree::PreprocessorToken(t) => {
                let location = t.location;
                match t.value {
                    PreprocessingToken::Delimited(delimited) => {
                        let d = *delimited;
                        let mut v: Vec<TokenTree> = Vec::new();
                        v.push(TokenTree::PreprocessorToken(d.opener));
                        let mut leaves = leaves_of(d.inner_tokens);
                        v.append(&mut leaves);
                        v.push(TokenTree::PreprocessorToken(d.closer));
                        proof {
                            assert(v@ =~= seq![TokenTree::PreprocessorToken(d.opener)] + d.inner_tokens@.map_values(
                                |x: Spanned<PreprocessingToken>| TokenTree::PreprocessorToken(x),
                            ) + seq![TokenTree::PreprocessorToken(d.closer)]);
                        }
                        Ok(ExpandControlFlow::RescanMany(v))
                    },
                    PreprocessingToken::Identifier(identifier) => {
                        if self.respect_defined && str_eq(identifier.as_str(), "defined") {
                            self.expand_defined(location)
                        } else if self.expanding.contains(identifier.as_str()) {
                            let mut out: Vec<Spanned<PreprocessingToken>> = Vec::new();
                            out.push(Spanned::new(location, PreprocessingToken::BlueIdentifier(identifier)));
                            proof {
                                lemma_tokens_view_single(out@[0]);
                                assert(out@ =~= seq![out@[0]]);
                            }
                            Ok(ExpandControlFlow::Return(out))
                        } else if !skip_macro_replacement {
                            self.handle_identifier(&location, identifier.as_str())
                        } else {
                            let mut out: Vec<Spanned<PreprocessingToken>> = Vec::new();
                            out.push(Spanned::new(location, PreprocessingToken::Identifier(identifier)));
                            Ok(ExpandControlFlow::Return(out))
                        }
                    },
                    other => {
                        let mut out: Vec<Spanned<PreprocessingToken>> = Vec::new();
                        out.push(Spanned::new(location, other));
                        Ok(ExpandControlFlow::Return(out))
                    },
                }
            },
            TokenTree::Internal(InternalLeaf::MacroExpansion(macro_name, tokens)) => {
                let mut f: Vec<TokenTree> = Vec::new();
                f.push(TokenTree::Internal(InternalLeaf::BeginExpandingMacro(macro_name.clone())));
                let ghost toks = tokens@;
                let mut leaves = leaves_of(tokens);
                f.append(&mut leaves);
                f.push(TokenTree::Internal(InternalLeaf::FinishExpandingMacro(macro_name)));
                Ok(ExpandControlFlow::RescanMany(f))
            },
            TokenTree::IfDef { macro_name, body, opposition } => {
                if self.macros.contains_key(macro_name.as_str()) {
                    Ok(ExpandControlFlow::RescanMany(body))
                } else {
                    Ok(ExpandControlFlow::Rescan(*opposition))
                }
            },
            TokenTree::IfNDef { macro_name, body, opposition } => {
                if !self.macros.contains_key(macro_name.as_str()) {
                    Ok(ExpandControlFlow::RescanMany(body))
                } else {
                    Ok(ExpandControlFlow::Rescan(*opposition))
                }
            },
            TokenTree::If { condition, body, opposition } => {
                let holds = self.evaluate_condition(&condition);
                let ghost b = holds;
                proof {
                    if forall|i: int| 0 <= i < condition@.len() ==> !is_control_line(#[trigger] condition@[i]) {
                        let q = choose|q: Seq<TokenTree>| #[trigger] leaves_for(q, condition@) && condition_by_queue(
                            q,
                            self.macros@,
                            self.file_id,
                            self.budget as int,
                            b,
                        );
                        assert(leaves_for(q, condition@) && condition_by_queue(q, self.macros@, self.file_id, self.budget as int, b));
                    }
                }
                match holds {
                    Ok(true) => Ok(ExpandControlFlow::RescanMany(body)),
                    Ok(false) => Ok(ExpandControlFlow::Rescan(*opposition)),
                    Err(e) => Err(e),
                }
            },
            TokenTree::Elif { condition, body, opposition } => {
                let holds = self.evaluate_condition(&condition);
                let ghost b = holds;
                proof {
                    if forall|i: int| 0 <= i < condition@.len() ==> !is_control_line(#[trigger] condition@[i]) {
                        let q = choose|q: Seq<TokenTree>| #[trigger] leaves_for(q, condition@) && condition_by_queue(
                            q,
                            self.macros@,
                            self.file_id,
                            self.budget as int,
                            b,
                        );
                        assert(leaves_for(q, condition@) && condition_by_queue(q, self.macros@, self.file_id, self.budget as int, b));
                    }
                }
                match holds {
                    Ok(true) => Ok(ExpandControlFlow::RescanMany(body)),
                    Ok(false) => Ok(ExpandControlFlow::Rescan(*opposition)),
                    Err(e) => Err(e),
                }
            },
            TokenTree::Else { body, opposition } => Ok(ExpandControlFlow::RescanMany(body)),
            _ => Ok(ExpandControlFlow::Return(Vec::new())),
        }
    }

    /// Whether the constant expression `condition` of `#if` or `#elif` holds: its tokens are
    /// expanded with `defined` in force, parsed and evaluated, and it holds when the value is 1.
    pub fn evaluate_condition(&self, condition: &Vec<Spanned<PreprocessingToken>>) -> (r: PResult<bool>)
        ensures
            plain_condition(condition@, self.macros@) && self.budget > condition@.len() ==> condition_outcome(condition@, r),
            ({
                &&& forall|i: int| 0 <= i < condition@.len() ==> !is_control_line(#[trigger] condition@[i])
                &&& plain_ok(tokens_view(condition@), self.macros@, Set::<Seq<char>>::empty(), true, self.file_id)
                &&& self.budget > plain_need(tokens_view(condition@), self.macros@, Set::<Seq<char>>::empty(), true, self.file_id)
            }) ==> condition_value(plain_out(tokens_view(condition@), self.macros@, Set::<Seq<char>>::empty(), true, self.file_id), r),
            (forall|i: int| 0 <= i < condition@.len() ==> !is_control_line(#[trigger] condition@[i])) ==> exists|
                q: Seq<TokenTree>,
            |
                #[trigger] leaves_for(q, condition@) && condition_by_queue(q, self.macros@, self.file_id, self.budget as int, r),
        decreases self.budget, 2int,
    {
        let ghost plain = plain_condition(condition@, self.macros@) && self.budget > condition@.len();
        let ghost with_macros = ({
            &&& forall|i: int| 0 <= i < condition@.len() ==> !is_control_line(#[trigger] condition@[i])
            &&& plain_ok(tokens_view(condition@), self.macros@, Set::<Seq<char>>::empty(), true, self.file_id)
            &&& self.budget > plain_need(tokens_view(condition@), self.macros@, Set::<Seq<char>>::empty(), true, self.file_id)
        });
        let ghost nocontrol = forall|i: int| 0 <= i < condition@.len() ==> !is_control_line(#[trigger] condition@[i]);
        if self.budget == 0 {
            proof {
                let q = condition@.map_values(|x: Spanned<PreprocessingToken>| TokenTree::PreprocessorToken(x));
                assert(leaves_for(q, condition@));
            }
            return Err(simple_error(&Location::new(), "macro expansion took too many steps"));
        }
        let mut itt = IntoTokenTree::new(self.file_id, condition.as_slice());
        let trees = itt.collect_trees()?;
        let n_trees = trees.len();
        let mut expander = Expander {
            file_id: self.file_id,
            token_trees: PrependingPeekableIterator::new(trees),
            output: Vec::new(),
            macros: self.macros.duplicate(),
            expanding: NameSet::new(),
            respect_defined: true,
            budget: self.budget - 1,
        };
        let ghost tv = expander.token_trees@;
        let ghost general = nocontrol && queue_ok(tv, self.macros@, Set::<Seq<char>>::empty(), true, self.file_id)
            && self.budget > queue_need(tv, self.macros@, Set::<Seq<char>>::empty(), true, self.file_id);
        proof {
            if nocontrol {
                assert forall|i: int| 0 <= i < tv.len() implies is_leaf_of(#[trigger] tv[i], condition@[i]) by {}
                assert(leaves_for(tv, condition@));
            }
            if general {
                lemma_tokens_view(Seq::<Spanned<PreprocessingToken>>::empty());
                assert(tokens_view(Seq::<Spanned<PreprocessingToken>>::empty()) + queue_out(
                    tv,
                    self.macros@,
                    Set::<Seq<char>>::empty(),
                    true,
                    self.file_id,
                ) =~= queue_out(tv, self.macros@, Set::<Seq<char>>::empty(), true, self.file_id));
            }
            if plain {
                assert forall|i: int| 0 <= i < tv.len() implies passes_tree(
                    #[trigger] tv[i],
                    self.macros@,
                    Set::<Seq<char>>::empty(),
                    true,
                ) by {
                    assert(is_leaf_of(tv[i], condition@[i]));
                    lemma_passes_view(tv[i]->PreprocessorToken_0, condition@[i], self.macros@, Set::<Seq<char>>::empty(), true);
                }
                lemma_tokens_view(leaf_tokens(tv));
                lemma_tokens_view(condition@);
                assert(tokens_view(leaf_tokens(tv)) =~= tokens_view(condition@)) by {
                    assert forall|i: int| 0 <= i < tv.len() implies #[trigger] tokens_view(leaf_tokens(tv))[i] == tokens_view(condition@)[i] by {
                        assert(is_leaf_of(tv[i], condition@[i]));
                    }
                }
                lemma_tokens_view(Seq::<Spanned<PreprocessingToken>>::empty());
                assert(tokens_view(Seq::<Spanned<PreprocessingToken>>::empty()) + tokens_view(leaf_tokens(tv)) =~= tokens_view(leaf_tokens(tv)));
            }
            if with_macros {
                assert forall|i: int| 0 <= i < tv.len() implies (#[trigger] tv[i]) is PreprocessorToken by {
                    assert(is_leaf_of(tv[i], condition@[i]));
                }
                lemma_tokens_view(leaf_tokens(tv));
                lemma_tokens_view(condition@);
                assert(tokens_view(leaf_tokens(tv)) =~= tokens_view(condition@)) by {
                    assert forall|i: int| 0 <= i < tv.len() implies #[trigger] tokens_view(leaf_tokens(tv))[i] == tokens_view(condition@)[i] by {
                        assert(is_leaf_of(tv[i], condition@[i]));
                    }
                }
                assert(tv.len() == n_trees);
                lemma_leaf_queue(tv, self.macros@, Set::<Seq<char>>::empty(), true, self.file_id);
                lemma_tokens_view(Seq::<Spanned<PreprocessingToken>>::empty());
                assert(tokens_view(Seq::<Spanned<PreprocessingToken>>::empty()) + queue_out(
                    tv,
                    self.macros@,
                    Set::<Seq<char>>::empty(),
                    true,
                    self.file_id,
                ) =~= queue_out(tv, self.macros@, Set::<Seq<char>>::empty(), true, self.file_id));
            }
        }
        match expander.expand() {
            Ok(()) => {},
            Err(e) => {
                return Err(e);
            },
        }
        let ghost out = expander.output@;
        let mut parser = Parser::new(expander.output);
        let ghost items = parser.pending();
        let ghost sc = parser.scope_stack();
        proof {
            if plain {
                lemma_converted_all_view(out, condition@, items);
            }
            if with_macros || general {
                let ws = without_whitespace_view(tokens_view(out));
                let nw = non_whitespace(out);
                lemma_tokens_view_without_whitespace(out);
                lemma_tokens_view(nw);
                assert forall|i: int| 0 <= i < items.len() implies converted_view(#[trigger] ws[i], items[i]) by {
                    assert(ws[i] == spanned_view(nw[i]));
                    assert(converted(nw[i], items[i]));
                    lemma_converted_is_view(nw[i], items[i]);
                }
            }
        }
        let expression = parser.parse_expression()?;
        let value = ConstantEvalutator::new().evaluate(&expression)?;
        Ok(value.value_of() == 1)
    }

    /// What `defined` at `location` becomes (see `defined_result`).
    pub fn expand_defined(&mut self, location: Location) -> (r: PResult<ExpandControlFlow>)
        ensures
            final(self).file_id == old(self).file_id,
            final(self).respect_defined == old(self).respect_defined,
            final(self).output@ == old(self).output@,
            final(self).budget == old(self).budget,
            final(self).macros@ == old(self).macros@,
            match defined_result(old(self).token_trees@, old(self).expanding@, old(self).macros@, location) {
                Some((v, rest, e)) => r matches Ok(ExpandControlFlow::Return(out)) && tokens_view(out@) == v
                    && final(self).token_trees@ == rest && final(self).expanding@ == e,
                None => r is Err,
            },
    {
        proof {
            lemma_first_significant(self.token_trees@, self.expanding@, 0);
            assert(self.token_trees@.skip(0) =~= self.token_trees@);
        }
        let (kind, name) = match self.peek_non_whitespace() {
            Some(TokenTree::PreprocessorToken(t)) => match &t.value {
                PreprocessingToken::Identifier(ident) => (1u8, Some(ident.clone())),
                PreprocessingToken::Punctuator(Punctuator::LeftParen) => (2u8, None),
                _ => (0u8, None),
            },
            _ => (0u8, None),
        };
        if kind == 1 {
            let _ = self.next_non_whitespace();
            let defined = match name {
                Some(n) => self.macros.contains_key(n.as_str()),
                None => false,
            };
            let mut out: Vec<Spanned<PreprocessingToken>> = Vec::new();
            out.push(Spanned::new(location, PreprocessingToken::PPNumber(String::from_str(if defined { "1" } else { "0" }))));
            proof {
                lemma_tokens_view_single(out@[0]);
                assert(out@ =~= seq![out@[0]]);
            }
            Ok(ExpandControlFlow::Return(out))
        } else if kind == 2 {
            let (opener, closer, inner) = self.next_delimited()?;
            proof {
                lemma_tokens_view(inner@);
            }
            if inner.len() != 1 {
                return Err(simple_error(&opener.location.until(&closer.location), "defined(..) operator must have exactly 1 identifier inside."));
            }
            proof {
                lemma_tokens_view(inner@);
            }
            match &inner[0].value {
                PreprocessingToken::Identifier(ident) => {
                    let defined = self.macros.contains_key(ident.as_str());
                    let mut out: Vec<Spanned<PreprocessingToken>> = Vec::new();
                    out.push(Spanned::new(location, PreprocessingToken::PPNumber(String::from_str(if defined { "1" } else { "0" }))));
                    proof {
                        lemma_tokens_view_single(out@[0]);
                        assert(out@ =~= seq![out@[0]]);
                    }
                    Ok(ExpandControlFlow::Return(out))
                },
                _ => Err(simple_error(&opener.location.until(&closer.location), "Token directly following `defined(` must be an identifier, with a following `)`.")),
            }
        } else {
            Err(simple_error(&location, "Token directly following `defined` must be an identifier, optionally wrapped in parenthesis"))
        }
    }

    /// What an identifier becomes: itself when it names no macro or a function-like macro
    /// without a call; else the expansion of the macro, to be looked at again (see
    /// `identifier_outcome`).
    pub fn handle_identifier(&mut self, span: &Location, identifier: &str) -> (r: PResult<ExpandControlFlow>)
        ensures
            final(self).file_id == old(self).file_id,
            final(self).respect_defined == old(self).respect_defined,
            final(self).output@ == old(self).output@,
            final(self).budget == old(self).budget,
            final(self).macros@ == old(self).macros@,
            identifier_outcome(*old(self), *final(self), *span, identifier@, r),
        decreases old(self).budget, 2int,
    {
        let definition = match self.macros.get(identifier) {
            Some(d) => d.duplicate(),
            None => {
                let mut out: Vec<Spanned<PreprocessingToken>> = Vec::new();
                out.push(Spanned::new(span.duplicate(), PreprocessingToken::Identifier(String::from_str(identifier))));
                proof {
                    lemma_tokens_view_single(out@[0]);
                    assert(out@ =~= seq![out@[0]]);
                }
                return Ok(ExpandControlFlow::Return(out));
            },
        };
        match definition {
            MacroDefinition::Object(replacement_list) => {
                let replacements = without_whitespace(&replacement_list);
                proof {
                    lemma_tokens_view(replacements@);
                    if no_hash_view(without_whitespace_view(tokens_view(replacement_list@))) {
                        assert forall|i: int| 0 <= i < replacements@.len() implies !is_punct(
                            #[trigger] replacements@[i],
                            Punctuator::Hash,
                        ) && !is_punct(replacements@[i], Punctuator::HashHash) by {
                            assert(tokens_view(replacements@)[i] == spanned_view(replacements@[i]));
                        }
                    }
                }
                let mut substitution = ArgumentSubstitutionIterator::new(
                    self.file_id,
                    replacements,
                    Vec::new(),
                    false,
                    Vec::new(),
                );
                proof {
                    lemma_tokens_view(replacements@);
                    assert((|t: Spanned<TokenView>| written(t, substitution.map@)) =~= (|t: Spanned<TokenView>| seq![t]));
                    assert((|t: Spanned<TokenView>| replaced(t, substitution.map@, false, substitution.variadic_args@))
                        =~= (|t: Spanned<TokenView>| seq![t]));
                }
                let output = substitution.collect_all()?;
                let output = relocate(&output, span);
                Ok(
                    ExpandControlFlow::Rescan(
                        TokenTree::Internal(InternalLeaf::MacroExpansion(String::from_str(identifier), output)),
                    ),
                )
            },
            MacroDefinition::Function { parameter_list, replacement_list } => {
                let is_call = match self.peek_non_whitespace() {
                    Some(TokenTree::PreprocessorToken(t)) => match &t.value {
                        PreprocessingToken::Punctuator(Punctuator::LeftParen) => true,
                        PreprocessingToken::Delimited(d) => match &d.opener.value {
                            PreprocessingToken::Punctuator(Punctuator::LeftParen) => true,
                            _ => false,
                        },
                        _ => false,
                    },
                    _ => false,
                };
                if !is_call {
                    let mut out: Vec<Spanned<PreprocessingToken>> = Vec::new();
                    out.push(Spanned::new(span.duplicate(), PreprocessingToken::Identifier(String::from_str(identifier))));
                    proof {
                        lemma_tokens_view_single(out@[0]);
                        assert(out@ =~= seq![out@[0]]);
                    }
                    return Ok(ExpandControlFlow::Return(out));
                }
                proof {
                    lemma_first_significant(self.token_trees@, self.expanding@, 0);
                    assert(self.token_trees@.skip(0) =~= self.token_trees@);
                }
                let (opener, closer, tokens) = self.next_delimited()?;
                let ghost inner = tokens_view(tokens@);
                let ghost groups = split_view(inner);
                let ghost params = string_views(parameter_list.parameters@);
                let ghost macros0 = self.macros@;
                let ghost e0 = self.expanding@;
                let mut refs: Vec<&Spanned<PreprocessingToken>> = Vec::new();
                let mut k: usize = 0;
                while k < tokens.len()
                    invariant
                        k <= tokens@.len(),
                        refs@.len() == k,
                        forall|x: int| 0 <= x < k ==> *(#[trigger] refs@[x]) == tokens@[x],
                    decreases tokens@.len() - k,
                {
                    refs.push(&tokens[k]);
                    k += 1;
                }
                assert(derefs(refs@) =~= tokens@);
                let arguments = self.split_delimited(refs.as_slice());
                proof {
                    lemma_split_view(tokens@);
                }
                let n_params = parameter_list.parameters.len();
                if arguments.len() < n_params || (!parameter_list.variadic && arguments.len() > n_params) {
                    let mut message = String::new();
                    push_str(&mut message, "Expected ");
                    push_decimal(&mut message, n_params);
                    push_str(&mut message, " parameters, found ");
                    push_decimal(&mut message, arguments.len());
                    return Err(simple_error(&opener.location.until(&closer.location), message.as_str()));
                }
                assert(params.len() == n_params && groups.len() == arguments@.len());
                assert(!(groups.len() < params.len() || (!parameter_list.variadic && groups.len() > params.len())));
                let ghost plain = args_plain(groups, macros0, e0, self.file_id, self.budget as int);
                let ghost eg = expanded_args(groups, macros0, e0, self.file_id);
                let mut map: Vec<(String, MacroArgument)> = Vec::new();
                let mut extras: Vec<MacroArgument> = Vec::new();
                let mut i: usize = 0;
                while i < arguments.len()
                    invariant
                        i <= arguments@.len(),
                        n_params == parameter_list.parameters@.len(),
                        n_params <= arguments@.len(),
                        !parameter_list.variadic ==> arguments@.len() <= n_params,
                        params == string_views(parameter_list.parameters@),
                        arguments@.len() == groups.len(),
                        forall|x: int|
                            0 <= x < arguments@.len() ==> tokens_view(derefs((#[trigger] arguments@[x]).value@))
                                == groups[x],
                        self.file_id == old(self).file_id,
                        self.respect_defined == old(self).respect_defined,
                        self.output@ == old(self).output@,
                        self.budget == old(self).budget,
                        self.macros@ == old(self).macros@,
                        self.macros@ == macros0,
                        self.expanding@ == e0,
                        call_follows(old(self).token_trees@),
                        old(self).macros@.contains_key(identifier@),
                        old(self).macros@[identifier@] == MacroView::Function(
                            params,
                            parameter_list.variadic,
                            tokens_view(replacement_list@),
                        ),
                        call_group(old(self).token_trees@, old(self).expanding@) == Some((inner, self.token_trees@, e0)),
                        groups == split_view(inner),
                        plain == args_plain(groups, macros0, e0, self.file_id, self.budget as int),
                        eg == expanded_args(groups, macros0, e0, self.file_id),
                        map@.len() == if i <= n_params { i as int } else { n_params as int },
                        extras@.len() == if i <= n_params { 0 } else { i - n_params },
                        forall|x: int| 0 <= x < map@.len() ==> (#[trigger] map@[x]).0@ == params[x],
                        forall|x: int| 0 <= x < map@.len() ==> tokens_view((#[trigger] map@[x]).1.unexpanded@) == groups[x],
                        plain ==> forall|x: int|
                            0 <= x < map@.len() ==> tokens_view((#[trigger] map@[x]).1.expanded@) == eg[x],
                        plain ==> forall|x: int|
                            0 <= x < extras@.len() ==> tokens_view((#[trigger] extras@[x]).expanded@) == eg[n_params + x],
                    decreases arguments@.len() - i,
                {
                    let arg = &arguments[i];
                    let mut unexpanded: Vec<Spanned<PreprocessingToken>> = Vec::new();
                    let mut j: usize = 0;
                    while j < arg.value.len()
                        invariant
                            j <= arg.value@.len(),
                            unexpanded@.len() == j,
                            forall|x: int| 0 <= x < j ==> #[trigger] spanned_view(unexpanded@[x]) == spanned_view(*arg.value@[x]),
                        decreases arg.value@.len() - j,
                    {
                        unexpanded.push(copy_token(arg.value[j]));
                        j += 1;
                    }
                    proof {
                        let d = derefs(arg.value@);
                        lemma_tokens_view(d);
                        lemma_tokens_view(unexpanded@);
                        assert(tokens_view(unexpanded@) =~= tokens_view(d));
                    }
                    proof {
                        if plain {
                            assert(plain_ok(groups[i as int], macros0, e0, false, self.file_id));
                            assert(tokens_view(derefs(arg.value@)) == groups[i as int]);
                        }
                    }
                    let expanded = self.expand_arg(&arg.value)?;
                    proof {
                        if plain {
                            assert(tokens_view(expanded@) == eg[i as int]);
                        }
                    }
                    let argument = MacroArgument { unexpanded, expanded };
                    if i < n_params {
                        let name = parameter_list.parameters[i].clone();
                        proof {
                            assert(params[i as int] == parameter_list.parameters@[i as int]@);
                        }
                        map.push((name, argument));
                    } else {
                        extras.push(argument);
                    }
                    i += 1;
                }
                let replacements = without_whitespace(&replacement_list);
                proof {
                    lemma_tokens_view(replacements@);
                    if no_hash_view(without_whitespace_view(tokens_view(replacement_list@))) {
                        assert forall|x: int| 0 <= x < replacements@.len() implies !is_punct(
                            #[trigger] replacements@[x],
                            Punctuator::Hash,
                        ) && !is_punct(replacements@[x], Punctuator::HashHash) by {
                            assert(tokens_view(replacements@)[x] == spanned_view(replacements@[x]));
                        }
                    }
                    if plain {
                        lemma_substituted_view(replacements@, map@, extras@, params, eg, parameter_list.variadic);
                        let variadic = parameter_list.variadic;
                        let gs = eg.skip(params.len() as int);
                        assert forall|j: int| 0 <= j < extras@.len() implies tokens_view(
                            (#[trigger] extras@[j]).expanded@,
                        ) == gs[j] by {}
                        lemma_flat_expanded(extras@, gs);
                        assert forall|t: Spanned<TokenView>| #[trigger] written(t, map@) == fn_written(t, params, groups) by {
                            if t.value is Identifier {
                                lemma_arg_index_params(map@, params, t.value->Identifier_0);
                                crate::substitute::lemma_arg_index(map@, t.value->Identifier_0);
                            }
                        }
                        assert forall|t: Spanned<TokenView>| #[trigger] replaced(t, map@, variadic, extras@) == fn_replaced(
                            t,
                            params,
                            eg,
                            variadic,
                        ) by {
                            if t.value is Identifier {
                                lemma_arg_index_params(map@, params, t.value->Identifier_0);
                                crate::substitute::lemma_arg_index(map@, t.value->Identifier_0);
                            }
                        }
                        assert((|t: Spanned<TokenView>| written(t, map@)) =~= (|t: Spanned<TokenView>| fn_written(
                            t,
                            params,
                            groups,
                        )));
                        assert((|t: Spanned<TokenView>| replaced(t, map@, variadic, extras@)) =~= (|t: Spanned<TokenView>| fn_replaced(
                            t,
                            params,
                            eg,
                            variadic,
                        )));
                    }
                }
                let mut substitution = ArgumentSubstitutionIterator::new(
                    self.file_id,
                    replacements,
                    map,
                    parameter_list.variadic,
                    extras,
                );
                let output = substitution.collect_all()?;
                let output = relocate(&output, span);
                let mut v: Vec<TokenTree> = Vec::new();
                v.push(TokenTree::Internal(InternalLeaf::MacroExpansion(String::from_str(identifier), output)));
                Ok(ExpandControlFlow::RescanMany(v))
            },
        }
    }

    /// The expansion of one macro argument, with the macros and the set of macros being
    /// expanded that hold here.
    pub fn expand_arg(&self, arg: &Vec<&Spanned<PreprocessingToken>>) -> (r: PResult<Vec<Spanned<PreprocessingToken>>>)
        ensures
            (forall|i: int|
                0 <= i < arg@.len() ==> passes_through(
                    *(#[trigger] arg@[i]),
                    self.macros@,
                    self.expanding@,
                    false,
                )) && self.budget > arg@.len() ==> (r matches Ok(v) && tokens_view(v@) == tokens_view(
                derefs(arg@),
            )),
            ({
                let ts = tokens_view(derefs(arg@));
                &&& plain_ok(ts, self.macros@, self.expanding@, false, self.file_id)
                &&& self.budget > plain_need(ts, self.macros@, self.expanding@, false, self.file_id)
            }) ==> (r matches Ok(v) && tokens_view(v@) == plain_out(
                tokens_view(derefs(arg@)),
                self.macros@,
                self.expanding@,
                false,
                self.file_id,
            )),
        decreases self.budget, 1int,
    {
        if self.budget == 0 {
            return Err(simple_error(&Location::new(), "macro expansion took too many steps"));
        }
        let mut trees: Vec<TokenTree> = Vec::new();
        let mut i: usize = 0;
        while i < arg.len()
            invariant
                i <= arg@.len(),
                trees@.len() == i,
                forall|j: int|
                    0 <= j < i ==> #[trigger] trees@[j] is PreprocessorToken && spanned_view(
                        trees@[j]->PreprocessorToken_0,
                    ) == spanned_view(*arg@[j]),
            decreases arg@.len() - i,
        {
            trees.push(TokenTree::PreprocessorToken(copy_token(arg[i])));
            i += 1;
        }
        let ghost tv = trees@;
        let mut expander = Expander {
            file_id: self.file_id,
            token_trees: PrependingPeekableIterator::new(trees),
            output: Vec::new(),
            macros: self.macros.duplicate(),
            expanding: self.expanding.duplicate(),
            respect_defined: false,
            budget: self.budget - 1,
        };
        proof {
            assert forall|i: int| 0 <= i < tv.len() && passes_through(*arg@[i], self.macros@, self.expanding@, false) implies passes_tree(
                #[trigger] tv[i],
                self.macros@,
                self.expanding@,
                false,
            ) by {
                lemma_passes_view(tv[i]->PreprocessorToken_0, *arg@[i], self.macros@, self.expanding@, false);
            }
            lemma_tokens_view(leaf_tokens(tv));
            lemma_tokens_view(derefs(arg@));
            assert(tokens_view(leaf_tokens(tv)) =~= tokens_view(derefs(arg@)));
            lemma_tokens_view(Seq::<Spanned<PreprocessingToken>>::empty());
            assert(tokens_view(Seq::<Spanned<PreprocessingToken>>::empty()) + tokens_view(leaf_tokens(tv)) =~= tokens_view(leaf_tokens(tv)));
            let ts = tokens_view(derefs(arg@));
            if plain_ok(ts, self.macros@, self.expanding@, false, self.file_id) {
                assert forall|i: int| 0 <= i < tv.len() implies (#[trigger] tv[i]) is PreprocessorToken by {}
                lemma_leaf_queue(tv, self.macros@, self.expanding@, false, self.file_id);
                let o = plain_out(ts, self.macros@, self.expanding@, false, self.file_id);
                assert(tokens_view(Seq::<Spanned<PreprocessingToken>>::empty()) + o =~= o);
            }
        }
        expander.expand()?;
        Ok(expander.output)
    }
}

} // verus!

use crate::spanned::{Location, Spanned};
use crate::strings::str_eq;
use vstd::prelude::*;

verus! {

/// A preprocessing token (C99 6.4).
#[derive(Debug)]
pub enum PreprocessingToken {
    Identifier(String),
    /// An identifier that should not be considered for a potential macro invocation
    BlueIdentifier(String),
    StringLiteral(String),
    CharLiteral(String),
    PPNumber(String),
    ControlLine(Vec<Spanned<PreprocessingToken>>),
    Whitespace(Whitespace),
    Punctuator(Punctuator),
    Delimited(Box<Delimited>),
}

/// A bracketed group of tokens.
#[derive(Debug)]
pub struct Delimited {
    pub opener: Spanned<PreprocessingToken>,
    pub closer: Spanned<PreprocessingToken>,
    pub inner_tokens: Vec<Spanned<PreprocessingToken>>,
}

#[derive(Debug)]
pub enum Directive {
    DefineObject(Spanned<String>, Vec<Spanned<PreprocessingToken>>),
    DefineFunction(Spanned<String>, Spanned<Vec<Spanned<PreprocessingToken>>>, Vec<Spanned<PreprocessingToken>>),
    Undefine(Spanned<String>),
}

#[derive(Debug, PartialEq, Eq, Clone, Copy, Structural)]
pub enum Whitespace {
    /// ` `
    Space,
    /// `\n`
    Newline,
    /// `\t`
    Tab,
}

#[derive(Debug, PartialEq, Eq, Clone, Copy, Structural)]
pub enum Punctuator {
    /// `[`
    LeftBracket,
    /// `]`
    RightBracket,
    /// `(`
    LeftParen,
    /// `)`
    RightParen,
    /// `{`
    LeftBrace,
    /// `}`
    RightBrace,
    /// `.`
    Dot,
    /// `->`
    Arrow,
    /// `++`
    PlusPlus,
    /// `--`
    MinusMinus,
    /// `&`
    Ampersand,
    /// `*`
    Asterisk,
    /// `+`
    Plus,
    /// `-`
    Minus,
    /// `~`
    Tilde,
    /// `!`
    Bang,
    /// `/`
    Slash,
    /// `%`
    Percent,
    /// `<<`
    LeftLeft,
    /// `>>`
    RightRight,
    /// `<`
    Left,
    /// `>`
    Right,
    /// `<=`
    LeftEqual,
    /// `>=`
    RightEqual,
    /// `==`
    EqualEqual,
    /// `!=`
    BangEqual,
    /// `^`
    Caret,
    /// `|`
    Pipe,
    /// `&&`
    AndAnd,
    /// `||`
    PipePipe,
    /// `?`
    Question,
    /// `:`
    Colon,
    /// `;`
    Semicolon,
    /// `...`
    DotDotDot,
    /// `=`
    Equal,
    /// `*=`
    AsteriskEqual,
    /// `/=`
    SlashEqual,
    /// `%=`
    PercentEqual,
    /// `+=`
    PlusEqual,
    /// `-=`
    MinusEqual,
    /// `<<=`
    LeftLeftEqual,
    /// `>>=`
    RightRightEqual,
    /// `&=`
    AndEqual,
    /// `^=`
    CaretEqual,
    /// `|=`
    PipeEqual,
    /// `,`
    Comma,
    /// `#` as the first non-whitespace character of a line; spelled `\u{266f}` so that it reads apart from `Hash`
    Directive,
    /// `#`
    Hash,
    /// `##`
    HashHash,
    /// `<:`
    LeftColon,
    /// `:>`; its spelling is empty
    ColonRight,
    /// `<%`
    LessPercent,
    /// `%>`
    PercentRight,
    /// `%:`
    PercentColon,
    /// `%:%:`
    PercentColonPercentColon,
}

#[derive(Debug, Clone, Copy, PartialEq, Eq, Structural)]
pub enum Keyword {
    Auto,
    Break,
    Case,
    Char,
    Const,
    Continue,
    Default,
    Do,
    Double,
    Else,
    Enum,
    Extern,
    Float,
    For,
    Goto,
    If,
    Inline,
    Int,
    Long,
    Register,
    Restrict,
    Return,
    Short,
    Signed,
    Sizeof,
    Static,
    Struct,
    Switch,
    Typedef,
    Union,
    Unsigned,
    Void,
    Volatile,
    While,
    Bool,
    Complex,
    Imaginary,
}

/// The mathematical model of a preprocessing token: strings become sequences of
/// characters and nested token vectors become sequences of spanned models.
pub enum TokenView {
    Identifier(Seq<char>),
    BlueIdentifier(Seq<char>),
    StringLiteral(Seq<char>),
    CharLiteral(Seq<char>),
    PPNumber(Seq<char>),
    ControlLine(Seq<Spanned<TokenView>>),
    Whitespace(Whitespace),
    Punctuator(Punctuator),
    Delimited(Box<Spanned<TokenView>>, Box<Spanned<TokenView>>, Seq<Spanned<TokenView>>),
}

/// The model of a token.
pub open spec fn token_view(t: PreprocessingToken) -> TokenView
    decreases t, 0int,
{
    match t {
        PreprocessingToken::Identifier(s) => TokenView::Identifier(s@),
        PreprocessingToken::BlueIdentifier(s) => TokenView::BlueIdentifier(s@),
        PreprocessingToken::StringLiteral(s) => TokenView::StringLiteral(s@),
        PreprocessingToken::CharLiteral(s) => TokenView::CharLiteral(s@),
        PreprocessingToken::PPNumber(s) => TokenView::PPNumber(s@),
        PreprocessingToken::ControlLine(v) => {
            proof {
                broadcast use vstd::std_specs::vec::axiom_vec_decreases_to_view;
                assert(decreases_to!(v => v@));
            }
            TokenView::ControlLine(tokens_view(v@))
        },
        PreprocessingToken::Whitespace(w) => TokenView::Whitespace(w),
        PreprocessingToken::Punctuator(p) => TokenView::Punctuator(p),
        PreprocessingToken::Delimited(d) => {
            proof {
                broadcast use vstd::std_specs::vec::axiom_vec_decreases_to_view;
                assert(decreases_to!(d.inner_tokens => d.inner_tokens@));
            }
            TokenView::Delimited(
                Box::new(spanned_view(d.opener)),
                Box::new(spanned_view(d.closer)),
                tokens_view(d.inner_tokens@),
            )
        },
    }
}

/// The model of a spanned token.
pub open spec fn spanned_view(t: Spanned<PreprocessingToken>) -> Spanned<TokenView>
    decreases t, 1int,
{
    Spanned { value: token_view(t.value), location: t.location }
}

/// The model of a sequence of spanned tokens.
pub open spec fn tokens_view(s: Seq<Spanned<PreprocessingToken>>) -> Seq<Spanned<TokenView>>
    decreases s, 2int,
{
    if s.len() == 0 {
        seq![]
    } else {
        proof {
            assert(decreases_to!(s => s[0]));
            assert(decreases_to!(s => s.drop_first()));
        }
        seq![spanned_view(s[0])] + tokens_view(s.drop_first())
    }
}

/// The model of a sequence is the sequence of the models of its elements.
pub proof fn lemma_tokens_view(s: Seq<Spanned<PreprocessingToken>>)
    ensures
        tokens_view(s).len() == s.len(),
        forall|i: int| 0 <= i < s.len() ==> #[trigger] tokens_view(s)[i] == spanned_view(s[i]),
    decreases s.len(),
{
    if s.len() > 0 {
        lemma_tokens_view(s.drop_first());
        assert forall|i: int| 0 <= i < s.len() implies #[trigger] tokens_view(s)[i] == spanned_view(s[i]) by {
            if i > 0 {
                assert(s.drop_first()[i - 1] == s[i]);
            }
        }
    }
}

/// Models of concatenations concatenate.
pub proof fn lemma_tokens_view_add(a: Seq<Spanned<PreprocessingToken>>, b: Seq<Spanned<PreprocessingToken>>)
    ensures
        tokens_view(a + b) == tokens_view(a) + tokens_view(b),
{
    lemma_tokens_view(a);
    lemma_tokens_view(b);
    lemma_tokens_view(a + b);
    assert(tokens_view(a + b) =~= tokens_view(a) + tokens_view(b));
}

/// The model of a sequence with one more element.
pub proof fn lemma_tokens_view_push(a: Seq<Spanned<PreprocessingToken>>, t: Spanned<PreprocessingToken>)
    ensures
        tokens_view(a.push(t)) == tokens_view(a).push(spanned_view(t)),
{
    lemma_tokens_view(a);
    lemma_tokens_view(a.push(t));
    assert(tokens_view(a.push(t)) =~= tokens_view(a).push(spanned_view(t)));
}

/// How a token is written out: literals in their quotes, a control line after `#`, a
/// delimited group as its opener, inner tokens and closer.
pub open spec fn rendered(t: TokenView) -> Seq<char>
    decreases t, 0int,
{
    match t {
        TokenView::Identifier(s) => s,
        TokenView::BlueIdentifier(s) => s,
        TokenView::StringLiteral(s) => seq!['"'] + s + seq!['"'],
        TokenView::CharLiteral(s) => seq!['\''] + s + seq!['\''],
        TokenView::PPNumber(s) => s,
        TokenView::ControlLine(inner) => seq!['#'] + rendered_all(inner),
        TokenView::Whitespace(Whitespace::Space) => seq![' '],
        TokenView::Whitespace(Whitespace::Newline) => seq!['\n'],
        TokenView::Whitespace(Whitespace::Tab) => seq!['\t'],
        TokenView::Punctuator(p) => punct_spelling(p),
        TokenView::Delimited(o, c, inner) => rendered(o.value) + rendered_all(inner) + rendered(c.value),
    }
}

/// The tokens of `s`, written out one after the other.
pub open spec fn rendered_all(s: Seq<Spanned<TokenView>>) -> Seq<char>
    decreases s, 1int,
{
    if s.len() == 0 {
        seq![]
    } else {
        proof {
            assert(decreases_to!(s => s[0]));
            assert(decreases_to!(s => s.drop_first()));
        }
        rendered(s[0].value) + rendered_all(s.drop_first())
    }
}

/// Whether a control line occurs in `t`.
pub open spec fn has_control_line(t: TokenView) -> bool
    decreases t, 0int,
{
    match t {
        TokenView::ControlLine(_) => true,
        TokenView::Delimited(o, c, inner) => has_control_line(o.value) || has_control_line(c.value) || any_control_line(inner),
        _ => false,
    }
}

/// Whether a control line occurs in one of the tokens of `s`.
pub open spec fn any_control_line(s: Seq<Spanned<TokenView>>) -> bool
    decreases s, 1int,
{
    if s.len() == 0 {
        false
    } else {
        proof {
            assert(decreases_to!(s => s[0]));
            assert(decreases_to!(s => s.drop_first()));
        }
        has_control_line(s[0].value) || any_control_line(s.drop_first())
    }
}

/// Writing out a concatenation writes out each part.
pub proof fn lemma_rendered_all_add(a: Seq<Spanned<TokenView>>, b: Seq<Spanned<TokenView>>)
    ensures
        rendered_all(a + b) == rendered_all(a) + rendered_all(b),
        any_control_line(a + b) == (any_control_line(a) || any_control_line(b)),
    decreases a.len(),
{
    if a.len() == 0 {
        assert(a + b =~= b);
        assert(rendered_all(a) =~= Seq::<char>::empty());
        assert(rendered_all(a) + rendered_all(b) =~= rendered_all(b));
    } else {
        lemma_rendered_all_add(a.drop_first(), b);
        assert((a + b).drop_first() =~= a.drop_first() + b);
        assert((a + b)[0] == a[0]);
        assert(rendered_all(a + b) =~= rendered_all(a) + rendered_all(b));
    }
}

/// Whether a control line occurs in `t`.
pub fn token_has_control_line(t: &Spanned<PreprocessingToken>) -> (r: bool)
    ensures
        r == has_control_line(token_view(t.value)),
    decreases t, 0int,
{
    match &t.value {
        PreprocessingToken::ControlLine(_) => true,
        PreprocessingToken::Delimited(d) => {
            token_has_control_line(&d.opener) || token_has_control_line(&d.closer) || tokens_have_control_line(&d.inner_tokens)
        },
        _ => false,
    }
}

/// Whether a control line occurs in one of the tokens of `v`.
pub fn tokens_have_control_line(v: &Vec<Spanned<PreprocessingToken>>) -> (r: bool)
    ensures
        r == any_control_line(tokens_view(v@)),
    decreases v, 1int,
{
    let mut i: usize = 0;
    assert(v@.skip(0) =~= v@);
    while i < v.len()
        invariant
            i <= v@.len(),
            any_control_line(tokens_view(v@)) == any_control_line(tokens_view(v@.skip(i as int))),
        decreases v@.len() - i,
    {
        assert(decreases_to!(v => v@[i as int]));
        proof {
            lemma_tokens_view_add(seq![v@[i as int]], v@.skip(i + 1int));
            assert(seq![v@[i as int]] + v@.skip(i + 1int) =~= v@.skip(i as int));
            lemma_tokens_view(seq![v@[i as int]]);
            lemma_rendered_all_add(tokens_view(seq![v@[i as int]]), tokens_view(v@.skip(i + 1int)));
            let one = tokens_view(seq![v@[i as int]]);
            assert(one =~= seq![spanned_view(v@[i as int])]);
            assert(one.drop_first() =~= Seq::<Spanned<TokenView>>::empty());
            assert(any_control_line(Seq::<Spanned<TokenView>>::empty()) == false);
            assert(any_control_line(one) == has_control_line(token_view(v@[i as int].value)));
        }
        if token_has_control_line(&v[i]) {
            return true;
        }
        i += 1;
    }
    proof {
        assert(v@.skip(v@.len() as int) =~= Seq::<Spanned<PreprocessingToken>>::empty());
    }
    false
}

/// A copy of a spanned token, equal to it.
pub fn copy_token(t: &Spanned<PreprocessingToken>) -> (r: Spanned<PreprocessingToken>)
    ensures
        spanned_view(r) == spanned_view(*t),
    decreases t, 1int,
{
    Spanned { value: t.value.duplicate(), location: t.location.duplicate() }
}

/// A copy of a sequence of spanned tokens, equal to it.
pub fn copy_tokens(v: &Vec<Spanned<PreprocessingToken>>) -> (r: Vec<Spanned<PreprocessingToken>>)
    ensures
        tokens_view(r@) == tokens_view(v@),
    decreases v, 2int,
{
    let mut r: Vec<Spanned<PreprocessingToken>> = Vec::new();
    let mut i: usize = 0;
    while i < v.len()
        invariant
            i <= v@.len(),
            tokens_view(r@) == tokens_view(v@.subrange(0, i as int)),
        decreases v@.len() - i,
    {
        assert(decreases_to!(v => v@[i as int]));
        let t = copy_token(&v[i]);
        proof {
            lemma_tokens_view_push(r@, t);
            lemma_tokens_view_push(v@.subrange(0, i as int), v@[i as int]);
            assert(v@.subrange(0, i as int).push(v@[i as int]) =~= v@.subrange(0, i + 1));
        }
        r.push(t);
        i += 1;
    }
    assert(v@.subrange(0, v@.len() as int) =~= v@);
    r
}

/// How a punctuator is written out.
pub open spec fn punct_spelling(p: Punctuator) -> Seq<char> {
    match p {
        Punctuator::LeftBracket => "["@,
        Punctuator::RightBracket => "]"@,
        Punctuator::LeftParen => "("@,
        Punctuator::RightParen => ")"@,
        Punctuator::LeftBrace => "{"@,
        Punctuator::RightBrace => "}"@,
        Punctuator::Dot => "."@,
        Punctuator::Arrow => "->"@,
        Punctuator::PlusPlus => "++"@,
        Punctuator::MinusMinus => "--"@,
        Punctuator::Ampersand => "&"@,
        Punctuator::Asterisk => "*"@,
        Punctuator::Plus => "+"@,
        Punctuator::Minus => "-"@,
        Punctuator::Tilde => "~"@,
        Punctuator::Bang => "!"@,
        Punctuator::Slash => "/"@,
        Punctuator::Percent => "%"@,
        Punctuator::LeftLeft => "<<"@,
        Punctuator::RightRight => ">>"@,
        Punctuator::Left => "<"@,
        Punctuator::Right => ">"@,
        Punctuator::LeftEqual => "<="@,
        Punctuator::RightEqual => ">="@,
        Punctuator::EqualEqual => "=="@,
        Punctuator::BangEqual => "!="@,
        Punctuator::Caret => "^"@,
        Punctuator::Pipe => "|"@,
        Punctuator::AndAnd => "&&"@,
        Punctuator::PipePipe => "||"@,
        Punctuator::Question => "?"@,
        Punctuator::Colon => ":"@,
        Punctuator::Semicolon => ";"@,
        Punctuator::DotDotDot => "..."@,
        Punctuator::Equal => "="@,
        Punctuator::AsteriskEqual => "*="@,
        Punctuator::SlashEqual => "/="@,
        Punctuator::PercentEqual => "%="@,
        Punctuator::PlusEqual => "+="@,
        Punctuator::MinusEqual => "-="@,
        Punctuator::LeftLeftEqual => "<<="@,
        Punctuator::RightRightEqual => ">>="@,
        Punctuator::AndEqual => "&="@,
        Punctuator::CaretEqual => "^="@,
        Punctuator::PipeEqual => "|="@,
        Punctuator::Comma => ","@,
        Punctuator::Directive => "\u{266f}"@,
        Punctuator::Hash => "#"@,
        Punctuator::HashHash => "##"@,
        Punctuator::LeftColon => "<:"@,
        Punctuator::ColonRight => ":>"@,
        Punctuator::LessPercent => "<%"@,
        Punctuator::PercentRight => "%>"@,
        Punctuator::PercentColon => "%:"@,
        Punctuator::PercentColonPercentColon => "%:%:"@,
    }
}

/// The punctuator that a single character stands for on its own.
pub open spec fn punct_of_char(c: char) -> Option<Punctuator> {
    match c {
        '[' => Some(Punctuator::LeftBracket),
        ']' => Some(Punctuator::RightBracket),
        '(' => Some(Punctuator::LeftParen),
        ')' => Some(Punctuator::RightParen),
        '{' => Some(Punctuator::LeftBrace),
        '}' => Some(Punctuator::RightBrace),
        '.' => Some(Punctuator::Dot),
        '&' => Some(Punctuator::Ampersand),
        '*' => Some(Punctuator::Asterisk),
        '+' => Some(Punctuator::Plus),
        '-' => Some(Punctuator::Minus),
        '~' => Some(Punctuator::Tilde),
        '!' => Some(Punctuator::Bang),
        '/' => Some(Punctuator::Slash),
        '%' => Some(Punctuator::Percent),
        '<' => Some(Punctuator::Left),
        '>' => Some(Punctuator::Right),
        '^' => Some(Punctuator::Caret),
        '|' => Some(Punctuator::Pipe),
        '?' => Some(Punctuator::Question),
        ':' => Some(Punctuator::Colon),
        ';' => Some(Punctuator::Semicolon),
        '=' => Some(Punctuator::Equal),
        ',' => Some(Punctuator::Comma),
        '#' => Some(Punctuator::Hash),
        _ => None,
    }
}

/// A single character that stands for a punctuator is that punctuator's spelling: what
/// `Punctuator::from_char` reads, `Punctuator::to_string` writes back.
pub proof fn law_punctuator_char_spelling(c: char)
    ensures
        punct_of_char(c) matches Some(p) ==> punct_spelling(p) == seq![c],
{
    reveal_strlit("[");
    reveal_strlit("]");
    reveal_strlit("(");
    reveal_strlit(")");
    reveal_strlit("{");
    reveal_strlit("}");
    reveal_strlit(".");
    reveal_strlit("&");
    reveal_strlit("*");
    reveal_strlit("+");
    reveal_strlit("-");
    reveal_strlit("~");
    reveal_strlit("!");
    reveal_strlit("/");
    reveal_strlit("%");
    reveal_strlit("<");
    reveal_strlit(">");
    reveal_strlit("^");
    reveal_strlit("|");
    reveal_strlit("?");
    reveal_strlit(":");
    reveal_strlit(";");
    reveal_strlit("=");
    reveal_strlit(",");
    reveal_strlit("#");
}

/// Every keyword reads back from its spelling, and a spelling that reads as a keyword is
/// that keyword's spelling: `Keyword::from_str` and `Keyword::to_string` undo each other.
#[verifier::rlimit(50)]
pub proof fn law_keyword_spelling(k: Keyword, s: Seq<char>)
    ensures
        keyword_of(keyword_spelling(k)) == Some(k),
        keyword_of(s) matches Some(j) ==> keyword_spelling(j) == s,
{
    match k {
        Keyword::Auto => {
            reveal_strlit("auto");
        },
        Keyword::Break => {
            reveal_strlit("break");
            reveal_strlit("auto");
            assert("break"@.len() != "auto"@.len());
        },
        Keyword::Case => {
            reveal_strlit("case");
            reveal_strlit("auto");
            assert("case"@[0] != "auto"@[0]);
            reveal_strlit("break");
            assert("case"@.len() != "break"@.len());
        },
        Keyword::Char => {
            reveal_strlit("char");
            reveal_strlit("auto");
            assert("char"@[0] != "auto"@[0]);
            reveal_strlit("break");
            assert("char"@.len() != "break"@.len());
            reveal_strlit("case");
            assert("char"@[1] != "case"@[1]);
        },
        Keyword::Const => {
            reveal_strlit("const");
            reveal_strlit("auto");
            assert("const"@.len() != "auto"@.len());
            reveal_strlit("break");
            assert("const"@[0] != "break"@[0]);
            reveal_strlit("case");
            assert("const"@.len() != "case"@.len());
            reveal_strlit("char");
            assert("const"@.len() != "char"@.len());
        },
        Keyword::Continue => {
            reveal_strlit("continue");
            reveal_strlit("auto");
            assert("continue"@.len() != "auto"@.len());
            reveal_strlit("break");
            assert("continue"@.len() != "break"@.len());
            reveal_strlit("case");
            assert("continue"@.len() != "case"@.len());
            reveal_strlit("char");
            assert("continue"@.len() != "char"@.len());
            reveal_strlit("const");
            assert("continue"@.len() != "const"@.len());
        },
        Keyword::Default => {
            reveal_strlit("default");
            reveal_strlit("auto");
            assert("default"@.len() != "auto"@.len());
            reveal_strlit("break");
            assert("default"@.len() != "break"@.len());
            reveal_strlit("case");
            assert("default"@.len() != "case"@.len());
            reveal_strlit("char");
            assert("default"@.len() != "char"@.len());
            reveal_strlit("const");
            assert("default"@.len() != "const"@.len());
            reveal_strlit("continue");
            assert("default"@.len() != "continue"@.len());
        },
        Keyword::Do => {
            reveal_strlit("do");
            reveal_strlit("auto");
            assert("do"@.len() != "auto"@.len());
            reveal_strlit("break");
            assert("do"@.len() != "break"@.len());
            reveal_strlit("case");
            assert("do"@.len() != "case"@.len());
            reveal_strlit("char");
            assert("do"@.len() != "char"@.len());
            reveal_strlit("const");
            assert("do"@.len() != "const"@.len());
            reveal_strlit("continue");
            assert("do"@.len() != "continue"@.len());
            reveal_strlit("default");
            assert("do"@.len() != "default"@.len());
        },
        Keyword::Double => {
            reveal_strlit("double");
            reveal_strlit("auto");
            assert("double"@.len() != "auto"@.len());
            reveal_strlit("break");
            assert("double"@.len() != "break"@.len());
            reveal_strlit("case");
            assert("double"@.len() != "case"@.len());
            reveal_strlit("char");
            assert("double"@.len() != "char"@.len());
            reveal_strlit("const");
            assert("double"@.len() != "const"@.len());
            reveal_strlit("continue");
            assert("double"@.len() != "continue"@.len());
            reveal_strlit("default");
            assert("double"@.len() != "default"@.len());
            reveal_strlit("do");
            assert("double"@.len() != "do"@.len());
        },
        Keyword::Else => {
            reveal_strlit("else");
            reveal_strlit("auto");
            assert("else"@[0] != "auto"@[0]);
            reveal_strlit("break");
            assert("else"@.len() != "break"@.len());
            reveal_strlit("case");
            assert("else"@[0] != "case"@[0]);
            reveal_strlit("char");
            assert("else"@[0] != "char"@[0]);
            reveal_strlit("const");
            assert("else"@.len() != "const"@.len());
            reveal_strlit("continue");
            assert("else"@.len() != "continue"@.len());
            reveal_strlit("default");
            assert("else"@.len() != "default"@.len());
            reveal_strlit("do");
            assert("else"@.len() != "do"@.len());
            reveal_strlit("double");
            assert("else"@.len() != "double"@.len());
        },
        Keyword::Enum => {
            reveal_strlit("enum");
            reveal_strlit("auto");
            assert("enum"@[0] != "auto"@[0]);
            reveal_strlit("break");
            assert("enum"@.len() != "break"@.len());
            reveal_strlit("case");
            assert("enum"@[0] != "case"@[0]);
            reveal_strlit("char");
            assert("enum"@[0] != "char"@[0]);
            reveal_strlit("const");
            assert("enum"@.len() != "const"@.len());
            reveal_strlit("continue");
            assert("enum"@.len() != "continue"@.len());
            reveal_strlit("default");
            assert("enum"@.len() != "default"@.len());
            reveal_strlit("do");
            assert("enum"@.len() != "do"@.len());
            reveal_strlit("double");
            assert("enum"@.len() != "double"@.len());
            reveal_strlit("else");
            assert("enum"@[1] != "else"@[1]);
        },
        Keyword::Extern => {
            reveal_strlit("extern");
            reveal_strlit("auto");
            assert("extern"@.len() != "auto"@.len());
            reveal_strlit("break");
            assert("extern"@.len() != "break"@.len());
            reveal_strlit("case");
            assert("extern"@.len() != "case"@.len());
            reveal_strlit("char");
            assert("extern"@.len() != "char"@.len());
            reveal_strlit("const");
            assert("extern"@.len() != "const"@.len());
            reveal_strlit("continue");
            assert("extern"@.len() != "continue"@.len());
            reveal_strlit("default");
            assert("extern"@.len() != "default"@.len());
            reveal_strlit("do");
            assert("extern"@.len() != "do"@.len());
            reveal_strlit("double");
            assert("extern"@[0] != "double"@[0]);
            reveal_strlit("else");
            assert("extern"@.len() != "else"@.len());
            reveal_strlit("enum");
            assert("extern"@.len() != "enum"@.len());
        },
        Keyword::Float => {
            reveal_strlit("float");
            reveal_strlit("auto");
            assert("float"@.len() != "auto"@.len());
            reveal_strlit("break");
            assert("float"@[0] != "break"@[0]);
            reveal_strlit("case");
            assert("float"@.len() != "case"@.len());
            reveal_strlit("char");
            assert("float"@.len() != "char"@.len());
            reveal_strlit("const");
            assert("float"@[0] != "const"@[0]);
            reveal_strlit("continue");
            assert("float"@.len() != "continue"@.len());
            reveal_strlit("default");
            assert("float"@.len() != "default"@.len());
            reveal_strlit("do");
            assert("float"@.len() != "do"@.len());
            reveal_strlit("double");
            assert("float"@.len() != "double"@.len());
            reveal_strlit("else");
            assert("float"@.len() != "else"@.len());
            reveal_strlit("enum");
            assert("float"@.len() != "enum"@.len());
            reveal_strlit("extern");
            assert("float"@.len() != "extern"@.len());
        },
        Keyword::For => {
            reveal_strlit("for");
            reveal_strlit("auto");
            assert("for"@.len() != "auto"@.len());
            reveal_strlit("break");
            assert("for"@.len() != "break"@.len());
            reveal_strlit("case");
            assert("for"@.len() != "case"@.len());
            reveal_strlit("char");
            assert("for"@.len() != "char"@.len());
            reveal_strlit("const");
            assert("for"@.len() != "const"@.len());
            reveal_strlit("continue");
            assert("for"@.len() != "continue"@.len());
            reveal_strlit("default");
            assert("for"@.len() != "default"@.len());
            reveal_strlit("do");
            assert("for"@.len() != "do"@.len());
            reveal_strlit("double");
            assert("for"@.len() != "double"@.len());
            reveal_strlit("else");
            assert("for"@.len() != "else"@.len());
            reveal_strlit("enum");
            assert("for"@.len() != "enum"@.len());
            reveal_strlit("extern");
            assert("for"@.len() != "extern"@.len());
            reveal_strlit("float");
            assert("for"@.len() != "float"@.len());
        },
        Keyword::Goto => {
            reveal_strlit("goto");
            reveal_strlit("auto");
            assert("goto"@[0] != "auto"@[0]);
            reveal_strlit("break");
            assert("goto"@.len() != "break"@.len());
            reveal_strlit("case");
            assert("goto"@[0] != "case"@[0]);
            reveal_strlit("char");
            assert("goto"@[0] != "char"@[0]);
            reveal_strlit("const");
            assert("goto"@.len() != "const"@.len());
            reveal_strlit("continue");
            assert("goto"@.len() != "continue"@.len());
            reveal_strlit("default");
            assert("goto"@.len() != "default"@.len());
            reveal_strlit("do");
            assert("goto"@.len() != "do"@.len());
            reveal_strlit("double");
            assert("goto"@.len() != "double"@.len());
            reveal_strlit("else");
            assert("goto"@[0] != "else"@[0]);
            reveal_strlit("enum");
            assert("goto"@[0] != "enum"@[0]);
            reveal_strlit("extern");
            assert("goto"@.len() != "extern"@.len());
            reveal_strlit("float");
            assert("goto"@.len() != "float"@.len());
            reveal_strlit("for");
            assert("goto"@.len() != "for"@.len());
        },
        Keyword::If => {
            reveal_strlit("if");
            reveal_strlit("auto");
            assert("if"@.len() != "auto"@.len());
            reveal_strlit("break");
            assert("if"@.len() != "break"@.len());
            reveal_strlit("case");
            assert("if"@.len() != "case"@.len());
            reveal_strlit("char");
            assert("if"@.len() != "char"@.len());
            reveal_strlit("const");
            assert("if"@.len() != "const"@.len());
            reveal_strlit("continue");
            assert("if"@.len() != "continue"@.len());
            reveal_strlit("default");
            assert("if"@.len() != "default"@.len());
            reveal_strlit("do");
            assert("if"@[0] != "do"@[0]);
            reveal_strlit("double");
            assert("if"@.len() != "double"@.len());
            reveal_strlit("else");
            assert("if"@.len() != "else"@.len());
            reveal_strlit("enum");
            assert("if"@.len() != "enum"@.len());
            reveal_strlit("extern");
            assert("if"@.len() != "extern"@.len());
            reveal_strlit("float");
            assert("if"@.len() != "float"@.len());
            reveal_strlit("for");
            assert("if"@.len() != "for"@.len());
            reveal_strlit("goto");
            assert("if"@.len() != "goto"@.len());
        },
        Keyword::Inline => {
            reveal_strlit("inline");
            reveal_strlit("auto");
            assert("inline"@.len() != "auto"@.len());
            reveal_strlit("break");
            assert("inline"@.len() != "break"@.len());
            reveal_strlit("case");
            assert("inline"@.len() != "case"@.len());
            reveal_strlit("char");
            assert("inline"@.len() != "char"@.len());
            reveal_strlit("const");
            assert("inline"@.len() != "const"@.len());
            reveal_strlit("continue");
            assert("inline"@.len() != "continue"@.len());
            reveal_strlit("default");
            assert("inline"@.len() != "default"@.len());
            reveal_strlit("do");
            assert("inline"@.len() != "do"@.len());
            reveal_strlit("double");
            assert("inline"@[0] != "double"@[0]);
            reveal_strlit("else");
            assert("inline"@.len() != "else"@.len());
            reveal_strlit("enum");
            assert("inline"@.len() != "enum"@.len());
            reveal_strlit("extern");
            assert("inline"@[0] != "extern"@[0]);
            reveal_strlit("float");
            assert("inline"@.len() != "float"@.len());
            reveal_strlit("for");
            assert("inline"@.len() != "for"@.len());
            reveal_strlit("goto");
            assert("inline"@.len() != "goto"@.len());
            reveal_strlit("if");
            assert("inline"@.len() != "if"@.len());
        },
        Keyword::Int => {
            reveal_strlit("int");
            reveal_strlit("auto");
            assert("int"@.len() != "auto"@.len());
            reveal_strlit("break");
            assert("int"@.len() != "break"@.len());
            reveal_strlit("case");
            assert("int"@.len() != "case"@.len());
            reveal_strlit("char");
            assert("int"@.len() != "char"@.len());
            reveal_strlit("const");
            assert("int"@.len() != "const"@.len());
            reveal_strlit("continue");
            assert("int"@.len() != "continue"@.len());
            reveal_strlit("default");
            assert("int"@.len() != "default"@.len());
            reveal_strlit("do");
            assert("int"@.len() != "do"@.len());
            reveal_strlit("double");
            assert("int"@.len() != "double"@.len());
            reveal_strlit("else");
            assert("int"@.len() != "else"@.len());
            reveal_strlit("enum");
            assert("int"@.len() != "enum"@.len());
            reveal_strlit("extern");
            assert("int"@.len() != "extern"@.len());
            reveal_strlit("float");
            assert("int"@.len() != "float"@.len());
            reveal_strlit("for");
            assert("int"@[0] != "for"@[0]);
            reveal_strlit("goto");
            assert("int"@.len() != "goto"@.len());
            reveal_strlit("if");
            assert("int"@.len() != "if"@.len());
            reveal_strlit("inline");
            assert("int"@.len() != "inline"@.len());
        },
        Keyword::Long => {
            reveal_strlit("long");
            reveal_strlit("auto");
            assert("long"@[0] != "auto"@[0]);
            reveal_strlit("break");
            assert("long"@.len() != "break"@.len());
            reveal_strlit("case");
            assert("long"@[0] != "case"@[0]);
            reveal_strlit("char");
            assert("long"@[0] != "char"@[0]);
            reveal_strlit("const");
            assert("long"@.len() != "const"@.len());
            reveal_strlit("continue");
            assert("long"@.len() != "continue"@.len());
            reveal_strlit("default");
            assert("long"@.len() != "default"@.len());
            reveal_strlit("do");
            assert("long"@.len() != "do"@.len());
            reveal_strlit("double");
            assert("long"@.len() != "double"@.len());
            reveal_strlit("else");
            assert("long"@[0] != "else"@[0]);
            reveal_strlit("enum");
            assert("long"@[0] != "enum"@[0]);
            reveal_strlit("extern");
            assert("long"@.len() != "extern"@.len());
            reveal_strlit("float");
            assert("long"@.len() != "float"@.len());
            reveal_strlit("for");
            assert("long"@.len() != "for"@.len());
            reveal_strlit("goto");
            assert("long"@[0] != "goto"@[0]);
            reveal_strlit("if");
            assert("long"@.len() != "if"@.len());
            reveal_strlit("inline");
            assert("long"@.len() != "inline"@.len());
            reveal_strlit("int");
            assert("long"@.len() != "int"@.len());
        },
        Keyword::Register => {
            reveal_strlit("register");
            reveal_strlit("auto");
            assert("register"@.len() != "auto"@.len());
            reveal_strlit("break");
            assert("register"@.len() != "break"@.len());
            reveal_strlit("case");
            assert("register"@.len() != "case"@.len());
            reveal_strlit("char");
            assert("register"@.len() != "char"@.len());
            reveal_strlit("const");
            assert("register"@.len() != "const"@.len());
            reveal_strlit("continue");
            assert("register"@[0] != "continue"@[0]);
            reveal_strlit("default");
            assert("register"@.len() != "default"@.len());
            reveal_strlit("do");
            assert("register"@.len() != "do"@.len());
            reveal_strlit("double");
            assert("register"@.len() != "double"@.len());
            reveal_strlit("else");
            assert("register"@.len() != "else"@.len());
            reveal_strlit("enum");
            assert("register"@.len() != "enum"@.len());
            reveal_strlit("extern");
            assert("register"@.len() != "extern"@.len());
            reveal_strlit("float");
            assert("register"@.len() != "float"@.len());
            reveal_strlit("for");
            assert("register"@.len() != "for"@.len());
            reveal_strlit("goto");
            assert("register"@.len() != "goto"@.len());
            reveal_strlit("if");
            assert("register"@.len() != "if"@.len());
            reveal_strlit("inline");
            assert("register"@.len() != "inline"@.len());
            reveal_strlit("int");
            assert("register"@.len() != "int"@.len());
            reveal_strlit("long");
            assert("register"@.len() != "long"@.len());
        },
        Keyword::Restrict => {
            reveal_strlit("restrict");
            reveal_strlit("auto");
            assert("restrict"@.len() != "auto"@.len());
            reveal_strlit("break");
            assert("restrict"@.len() != "break"@.len());
            reveal_strlit("case");
            assert("restrict"@.len() != "case"@.len());
            reveal_strlit("char");
            assert("restrict"@.len() != "char"@.len());
            reveal_strlit("const");
            assert("restrict"@.len() != "const"@.len());
            reveal_strlit("continue");
            assert("restrict"@[0] != "continue"@[0]);
            reveal_strlit("default");
            assert("restrict"@.len() != "default"@.len());
            reveal_strlit("do");
            assert("restrict"@.len() != "do"@.len());
            reveal_strlit("double");
            assert("restrict"@.len() != "double"@.len());
            reveal_strlit("else");
            assert("restrict"@.len() != "else"@.len());
            reveal_strlit("enum");
            assert("restrict"@.len() != "enum"@.len());
            reveal_strlit("extern");
            assert("restrict"@.len() != "extern"@.len());
            reveal_strlit("float");
            assert("restrict"@.len() != "float"@.len());
            reveal_strlit("for");
            assert("restrict"@.len() != "for"@.len());
            reveal_strlit("goto");
            assert("restrict"@.len() != "goto"@.len());
            reveal_strlit("if");
            assert("restrict"@.len() != "if"@.len());
            reveal_strlit("inline");
            assert("restrict"@.len() != "inline"@.len());
            reveal_strlit("int");
            assert("restrict"@.len() != "int"@.len());
            reveal_strlit("long");
            assert("restrict"@.len() != "long"@.len());
            reveal_strlit("register");
            assert("restrict"@[2] != "register"@[2]);
        },
        Keyword::Return => {
            reveal_strlit("return");
            reveal_strlit("auto");
            assert("return"@.len() != "auto"@.len());
            reveal_strlit("break");
            assert("return"@.len() != "break"@.len());
            reveal_strlit("case");
            assert("return"@.len() != "case"@.len());
            reveal_strlit("char");
            assert("return"@.len() != "char"@.len());
            reveal_strlit("const");
            assert("return"@.len() != "const"@.len());
            reveal_strlit("continue");
            assert("return"@.len() != "continue"@.len());
            reveal_strlit("default");
            assert("return"@.len() != "default"@.len());
            reveal_strlit("do");
            assert("return"@.len() != "do"@.len());
            reveal_strlit("double");
            assert("return"@[0] != "double"@[0]);
            reveal_strlit("else");
            assert("return"@.len() != "else"@.len());
            reveal_strlit("enum");
            assert("return"@.len() != "enum"@.len());
            reveal_strlit("extern");
            assert("return"@[0] != "extern"@[0]);
            reveal_strlit("float");
            assert("return"@.len() != "float"@.len());
            reveal_strlit("for");
            assert("return"@.len() != "for"@.len());
            reveal_strlit("goto");
            assert("return"@.len() != "goto"@.len());
            reveal_strlit("if");
            assert("return"@.len() != "if"@.len());
            reveal_strlit("inline");
            assert("return"@[0] != "inline"@[0]);
            reveal_strlit("int");
            assert("return"@.len() != "int"@.len());
            reveal_strlit("long");
            assert("return"@.len() != "long"@.len());
            reveal_strlit("register");
            assert("return"@.len() != "register"@.len());
            reveal_strlit("restrict");
            assert("return"@.len() != "restrict"@.len());
        },
        Keyword::Short => {
            reveal_strlit("short");
            reveal_strlit("auto");
            assert("short"@.len() != "auto"@.len());
            reveal_strlit("break");
            assert("short"@[0] != "break"@[0]);
            reveal_strlit("case");
            assert("short"@.len() != "case"@.len());
            reveal_strlit("char");
            assert("short"@.len() != "char"@.len());
            reveal_strlit("const");
            assert("short"@[0] != "const"@[0]);
            reveal_strlit("continue");
            assert("short"@.len() != "continue"@.len());
            reveal_strlit("default");
            assert("short"@.len() != "default"@.len());
            reveal_strlit("do");
            assert("short"@.len() != "do"@.len());
            reveal_strlit("double");
            assert("short"@.len() != "double"@.len());
            reveal_strlit("else");
            assert("short"@.len() != "else"@.len());
            reveal_strlit("enum");
            assert("short"@.len() != "enum"@.len());
            reveal_strlit("extern");
            assert("short"@.len() != "extern"@.len());
            reveal_strlit("float");
            assert("short"@[0] != "float"@[0]);
            reveal_strlit("for");
            assert("short"@.len() != "for"@.len());
            reveal_strlit("goto");
            assert("short"@.len() != "goto"@.len());
            reveal_strlit("if");
            assert("short"@.len() != "if"@.len());
            reveal_strlit("inline");
            assert("short"@.len() != "inline"@.len());
            reveal_strlit("int");
            assert("short"@.len() != "int"@.len());
            reveal_strlit("long");
            assert("short"@.len() != "long"@.len());
            reveal_strlit("register");
            assert("short"@.len() != "register"@.len());
            reveal_strlit("restrict");
            assert("short"@.len() != "restrict"@.len());
            reveal_strlit("return");
            assert("short"@.len() != "return"@.len());
        },
        Keyword::Signed => {
            reveal_strlit("signed");
            reveal_strlit("auto");
            assert("signed"@.len() != "auto"@.len());
            reveal_strlit("break");
            assert("signed"@.len() != "break"@.len());
            reveal_strlit("case");
            assert("signed"@.len() != "case"@.len());
            reveal_strlit("char");
            assert("signed"@.len() != "char"@.len());
            reveal_strlit("const");
            assert("signed"@.len() != "const"@.len());
            reveal_strlit("continue");
            assert("signed"@.len() != "continue"@.len());
            reveal_strlit("default");
            assert("signed"@.len() != "default"@.len());
            reveal_strlit("do");
            assert("signed"@.len() != "do"@.len());
            reveal_strlit("double");
            assert("signed"@[0] != "double"@[0]);
            reveal_strlit("else");
            assert("signed"@.len() != "else"@.len());
            reveal_strlit("enum");
            assert("signed"@.len() != "enum"@.len());
            reveal_strlit("extern");
            assert("signed"@[0] != "extern"@[0]);
            reveal_strlit("float");
            assert("signed"@.len() != "float"@.len());
            reveal_strlit("for");
            assert("signed"@.len() != "for"@.len());
            reveal_strlit("goto");
            assert("signed"@.len() != "goto"@.len());
            reveal_strlit("if");
            assert("signed"@.len() != "if"@.len());
            reveal_strlit("inline");
            assert("signed"@[0] != "inline"@[0]);
            reveal_strlit("int");
            assert("signed"@.len() != "int"@.len());
            reveal_strlit("long");
            assert("signed"@.len() != "long"@.len());
            reveal_strlit("register");
            assert("signed"@.len() != "register"@.len());
            reveal_strlit("restrict");
            assert("signed"@.len() != "restrict"@.len());
            reveal_strlit("return");
            assert("signed"@[0] != "return"@[0]);
            reveal_strlit("short");
            assert("signed"@.len() != "short"@.len());
        },
        Keyword::Sizeof => {
            reveal_strlit("sizeof");
            reveal_strlit("auto");
            assert("sizeof"@.len() != "auto"@.len());
            reveal_strlit("break");
            assert("sizeof"@.len() != "break"@.len());
            reveal_strlit("case");
            assert("sizeof"@.len() != "case"@.len());
            reveal_strlit("char");
            assert("sizeof"@.len() != "char"@.len());
            reveal_strlit("const");
            assert("sizeof"@.len() != "const"@.len());
            reveal_strlit("continue");
            assert("sizeof"@.len() != "continue"@.len());
            reveal_strlit("default");
            assert("sizeof"@.len() != "default"@.len());
            reveal_strlit("do");
            assert("sizeof"@.len() != "do"@.len());
            reveal_strlit("double");
            assert("sizeof"@[0] != "double"@[0]);
            reveal_strlit("else");
            assert("sizeof"@.len() != "else"@.len());
            reveal_strlit("enum");
            assert("sizeof"@.len() != "enum"@.len());
            reveal_strlit("extern");
            assert("sizeof"@[0] != "extern"@[0]);
            reveal_strlit("float");
            assert("sizeof"@.len() != "float"@.len());
            reveal_strlit("for");
            assert("sizeof"@.len() != "for"@.len());
            reveal_strlit("goto");
            assert("sizeof"@.len() != "goto"@.len());
            reveal_strlit("if");
            assert("sizeof"@.len() != "if"@.len());
            reveal_strlit("inline");
            assert("sizeof"@[0] != "inline"@[0]);
            reveal_strlit("int");
            assert("sizeof"@.len() != "int"@.len());
            reveal_strlit("long");
            assert("sizeof"@.len() != "long"@.len());
            reveal_strlit("register");
            assert("sizeof"@.len() != "register"@.len());
            reveal_strlit("restrict");
            assert("sizeof"@.len() != "restrict"@.len());
            reveal_strlit("return");
            assert("sizeof"@[0] != "return"@[0]);
            reveal_strlit("short");
            assert("sizeof"@.len() != "short"@.len());
            reveal_strlit("signed");
            assert("sizeof"@[2] != "signed"@[2]);
        },
        Keyword::Static => {
            reveal_strlit("static");
            reveal_strlit("auto");
            assert("static"@.len() != "auto"@.len());
            reveal_strlit("break");
            assert("static"@.len() != "break"@.len());
            reveal_strlit("case");
            assert("static"@.len() != "case"@.len());
            reveal_strlit("char");
            assert("static"@.len() != "char"@.len());
            reveal_strlit("const");
            assert("static"@.len() != "const"@.len());
            reveal_strlit("continue");
            assert("static"@.len() != "continue"@.len());
            reveal_strlit("default");
            assert("static"@.len() != "default"@.len());
            reveal_strlit("do");
            assert("static"@.len() != "do"@.len());
            reveal_strlit("double");
            assert("static"@[0] != "double"@[0]);
            reveal_strlit("else");
            assert("static"@.len() != "else"@.len());
            reveal_strlit("enum");
            assert("static"@.len() != "enum"@.len());
            reveal_strlit("extern");
            assert("static"@[0] != "extern"@[0]);
            reveal_strlit("float");
            assert("static"@.len() != "float"@.len());
            reveal_strlit("for");
            assert("static"@.len() != "for"@.len());
            reveal_strlit("goto");
            assert("static"@.len() != "goto"@.len());
            reveal_strlit("if");
            assert("static"@.len() != "if"@.len());
            reveal_strlit("inline");
            assert("static"@[0] != "inline"@[0]);
            reveal_strlit("int");
            assert("static"@.len() != "int"@.len());
            reveal_strlit("long");
            assert("static"@.len() != "long"@.len());
            reveal_strlit("register");
            assert("static"@.len() != "register"@.len());
            reveal_strlit("restrict");
            assert("static"@.len() != "restrict"@.len());
            reveal_strlit("return");
            assert("static"@[0] != "return"@[0]);
            reveal_strlit("short");
            assert("static"@.len() != "short"@.len());
            reveal_strlit("signed");
            assert("static"@[1] != "signed"@[1]);
            reveal_strlit("sizeof");
            assert("static"@[1] != "sizeof"@[1]);
        },
        Keyword::Struct => {
            reveal_strlit("struct");
            reveal_strlit("auto");
            assert("struct"@.len() != "auto"@.len());
            reveal_strlit("break");
            assert("struct"@.len() != "break"@.len());
            reveal_strlit("case");
            assert("struct"@.len() != "case"@.len());
            reveal_strlit("char");
            assert("struct"@.len() != "char"@.len());
            reveal_strlit("const");
            assert("struct"@.len() != "const"@.len());
            reveal_strlit("continue");
            assert("struct"@.len() != "continue"@.len());
            reveal_strlit("default");
            assert("struct"@.len() != "default"@.len());
            reveal_strlit("do");
            assert("struct"@.len() != "do"@.len());
            reveal_strlit("double");
            assert("struct"@[0] != "double"@[0]);
            reveal_strlit("else");
            assert("struct"@.len() != "else"@.len());
            reveal_strlit("enum");
            assert("struct"@.len() != "enum"@.len());
            reveal_strlit("extern");
            assert("struct"@[0] != "extern"@[0]);
            reveal_strlit("float");
            assert("struct"@.len() != "float"@.len());
            reveal_strlit("for");
            assert("struct"@.len() != "for"@.len());
            reveal_strlit("goto");
            assert("struct"@.len() != "goto"@.len());
            reveal_strlit("if");
            assert("struct"@.len() != "if"@.len());
            reveal_strlit("inline");
            assert("struct"@[0] != "inline"@[0]);
            reveal_strlit("int");
            assert("struct"@.len() != "int"@.len());
            reveal_strlit("long");
            assert("struct"@.len() != "long"@.len());
            reveal_strlit("register");
            assert("struct"@.len() != "register"@.len());
            reveal_strlit("restrict");
            assert("struct"@.len() != "restrict"@.len());
            reveal_strlit("return");
            assert("struct"@[0] != "return"@[0]);
            reveal_strlit("short");
            assert("struct"@.len() != "short"@.len());
            reveal_strlit("signed");
            assert("struct"@[1] != "signed"@[1]);
            reveal_strlit("sizeof");
            assert("struct"@[1] != "sizeof"@[1]);
            reveal_strlit("static");
            assert("struct"@[2] != "static"@[2]);
        },
        Keyword::Switch => {
            reveal_strlit("switch");
            reveal_strlit("auto");
            assert("switch"@.len() != "auto"@.len());
            reveal_strlit("break");
            assert("switch"@.len() != "break"@.len());
            reveal_strlit("case");
            assert("switch"@.len() != "case"@.len());
            reveal_strlit("char");
            assert("switch"@.len() != "char"@.len());
            reveal_strlit("const");
            assert("switch"@.len() != "const"@.len());
            reveal_strlit("continue");
            assert("switch"@.len() != "continue"@.len());
            reveal_strlit("default");
            assert("switch"@.len() != "default"@.len());
            reveal_strlit("do");
            assert("switch"@.len() != "do"@.len());
            reveal_strlit("double");
            assert("switch"@[0] != "double"@[0]);
            reveal_strlit("else");
            assert("switch"@.len() != "else"@.len());
            reveal_strlit("enum");
            assert("switch"@.len() != "enum"@.len());
            reveal_strlit("extern");
            assert("switch"@[0] != "extern"@[0]);
            reveal_strlit("float");
            assert("switch"@.len() != "float"@.len());
            reveal_strlit("for");
            assert("switch"@.len() != "for"@.len());
            reveal_strlit("goto");
            assert("switch"@.len() != "goto"@.len());
            reveal_strlit("if");
            assert("switch"@.len() != "if"@.len());
            reveal_strlit("inline");
            assert("switch"@[0] != "inline"@[0]);
            reveal_strlit("int");
            assert("switch"@.len() != "int"@.len());
            reveal_strlit("long");
            assert("switch"@.len() != "long"@.len());
            reveal_strlit("register");
            assert("switch"@.len() != "register"@.len());
            reveal_strlit("restrict");
            assert("switch"@.len() != "restrict"@.len());
            reveal_strlit("return");
            assert("switch"@[0] != "return"@[0]);
            reveal_strlit("short");
            assert("switch"@.len() != "short"@.len());
            reveal_strlit("signed");
            assert("switch"@[1] != "signed"@[1]);
            reveal_strlit("sizeof");
            assert("switch"@[1] != "sizeof"@[1]);
            reveal_strlit("static");
            assert("switch"@[1] != "static"@[1]);
            reveal_strlit("struct");
            assert("switch"@[1] != "struct"@[1]);
        },
        Keyword::Typedef => {
            reveal_strlit("typedef");
            reveal_strlit("auto");
            assert("typedef"@.len() != "auto"@.len());
            reveal_strlit("break");
            assert("typedef"@.len() != "break"@.len());
            reveal_strlit("case");
            assert("typedef"@.len() != "case"@.len());
            reveal_strlit("char");
            assert("typedef"@.len() != "char"@.len());
            reveal_strlit("const");
            assert("typedef"@.len() != "const"@.len());
            reveal_strlit("continue");
            assert("typedef"@.len() != "continue"@.len());
            reveal_strlit("default");
            assert("typedef"@[0] != "default"@[0]);
            reveal_strlit("do");
            assert("typedef"@.len() != "do"@.len());
            reveal_strlit("double");
            assert("typedef"@.len() != "double"@.len());
            reveal_strlit("else");
            assert("typedef"@.len() != "else"@.len());
            reveal_strlit("enum");
            assert("typedef"@.len() != "enum"@.len());
            reveal_strlit("extern");
            assert("typedef"@.len() != "extern"@.len());
            reveal_strlit("float");
            assert("typedef"@.len() != "float"@.len());
            reveal_strlit("for");
            assert("typedef"@.len() != "for"@.len());
            reveal_strlit("goto");
            assert("typedef"@.len() != "goto"@.len());
            reveal_strlit("if");
            assert("typedef"@.len() != "if"@.len());
            reveal_strlit("inline");
            assert("typedef"@.len() != "inline"@.len());
            reveal_strlit("int");
            assert("typedef"@.len() != "int"@.len());
            reveal_strlit("long");
            assert("typedef"@.len() != "long"@.len());
            reveal_strlit("register");
            assert("typedef"@.len() != "register"@.len());
            reveal_strlit("restrict");
            assert("typedef"@.len() != "restrict"@.len());
            reveal_strlit("return");
            assert("typedef"@.len() != "return"@.len());
            reveal_strlit("short");
            assert("typedef"@.len() != "short"@.len());
            reveal_strlit("signed");
            assert("typedef"@.len() != "signed"@.len());
            reveal_strlit("sizeof");
            assert("typedef"@.len() != "sizeof"@.len());
            reveal_strlit("static");
            assert("typedef"@.len() != "static"@.len());
            reveal_strlit("struct");
            assert("typedef"@.len() != "struct"@.len());
            reveal_strlit("switch");
            assert("typedef"@.len() != "switch"@.len());
        },
        Keyword::Union => {
            reveal_strlit("union");
            reveal_strlit("auto");
            assert("union"@.len() != "auto"@.len());
            reveal_strlit("break");
            assert("union"@[0] != "break"@[0]);
            reveal_strlit("case");
            assert("union"@.len() != "case"@.len());
            reveal_strlit("char");
            assert("union"@.len() != "char"@.len());
            reveal_strlit("const");
            assert("union"@[0] != "const"@[0]);
            reveal_strlit("continue");
            assert("union"@.len() != "continue"@.len());
            reveal_strlit("default");
            assert("union"@.len() != "default"@.len());
            reveal_strlit("do");
            assert("union"@.len() != "do"@.len());
            reveal_strlit("double");
            assert("union"@.len() != "double"@.len());
            reveal_strlit("else");
            assert("union"@.len() != "else"@.len());
            reveal_strlit("enum");
            assert("union"@.len() != "enum"@.len());
            reveal_strlit("extern");
            assert("union"@.len() != "extern"@.len());
            reveal_strlit("float");
            assert("union"@[0] != "float"@[0]);
            reveal_strlit("for");
            assert("union"@.len() != "for"@.len());
            reveal_strlit("goto");
            assert("union"@.len() != "goto"@.len());
            reveal_strlit("if");
            assert("union"@.len() != "if"@.len());
            reveal_strlit("inline");
            assert("union"@.len() != "inline"@.len());
            reveal_strlit("int");
            assert("union"@.len() != "int"@.len());
            reveal_strlit("long");
            assert("union"@.len() != "long"@.len());
            reveal_strlit("register");
            assert("union"@.len() != "register"@.len());
            reveal_strlit("restrict");
            assert("union"@.len() != "restrict"@.len());
            reveal_strlit("return");
            assert("union"@.len() != "return"@.len());
            reveal_strlit("short");
            assert("union"@[0] != "short"@[0]);
            reveal_strlit("signed");
            assert("union"@.len() != "signed"@.len());
            reveal_strlit("sizeof");
            assert("union"@.len() != "sizeof"@.len());
            reveal_strlit("static");
            assert("union"@.len() != "static"@.len());
            reveal_strlit("struct");
            assert("union"@.len() != "struct"@.len());
            reveal_strlit("switch");
            assert("union"@.len() != "switch"@.len());
            reveal_strlit("typedef");
            assert("union"@.len() != "typedef"@.len());
        },
        Keyword::Unsigned => {
            reveal_strlit("unsigned");
            reveal_strlit("auto");
            assert("unsigned"@.len() != "auto"@.len());
            reveal_strlit("break");
            assert("unsigned"@.len() != "break"@.len());
            reveal_strlit("case");
            assert("unsigned"@.len() != "case"@.len());
            reveal_strlit("char");
            assert("unsigned"@.len() != "char"@.len());
            reveal_strlit("const");
            assert("unsigned"@.len() != "const"@.len());
            reveal_strlit("continue");
            assert("unsigned"@[0] != "continue"@[0]);
            reveal_strlit("default");
            assert("unsigned"@.len() != "default"@.len());
            reveal_strlit("do");
            assert("unsigned"@.len() != "do"@.len());
            reveal_strlit("double");
            assert("unsigned"@.len() != "double"@.len());
            reveal_strlit("else");
            assert("unsigned"@.len() != "else"@.len());
            reveal_strlit("enum");
            assert("unsigned"@.len() != "enum"@.len());
            reveal_strlit("extern");
            assert("unsigned"@.len() != "extern"@.len());
            reveal_strlit("float");
            assert("unsigned"@.len() != "float"@.len());
            reveal_strlit("for");
            assert("unsigned"@.len() != "for"@.len());
            reveal_strlit("goto");
            assert("unsigned"@.len() != "goto"@.len());
            reveal_strlit("if");
            assert("unsigned"@.len() != "if"@.len());
            reveal_strlit("inline");
            assert("unsigned"@.len() != "inline"@.len());
            reveal_strlit("int");
            assert("unsigned"@.len() != "int"@.len());
            reveal_strlit("long");
            assert("unsigned"@.len() != "long"@.len());
            reveal_strlit("register");
            assert("unsigned"@[0] != "register"@[0]);
            reveal_strlit("restrict");
            assert("unsigned"@[0] != "restrict"@[0]);
            reveal_strlit("return");
            assert("unsigned"@.len() != "return"@.len());
            reveal_strlit("short");
            assert("unsigned"@.len() != "short"@.len());
            reveal_strlit("signed");
            assert("unsigned"@.len() != "signed"@.len());
            reveal_strlit("sizeof");
            assert("unsigned"@.len() != "sizeof"@.len());
            reveal_strlit("static");
            assert("unsigned"@.len() != "static"@.len());
            reveal_strlit("struct");
            assert("unsigned"@.len() != "struct"@.len());
            reveal_strlit("switch");
            assert("unsigned"@.len() != "switch"@.len());
            reveal_strlit("typedef");
            assert("unsigned"@.len() != "typedef"@.len());
            reveal_strlit("union");
            assert("unsigned"@.len() != "union"@.len());
        },
        Keyword::Void => {
            reveal_strlit("void");
            reveal_strlit("auto");
            assert("void"@[0] != "auto"@[0]);
            reveal_strlit("break");
            assert("void"@.len() != "break"@.len());
            reveal_strlit("case");
            assert("void"@[0] != "case"@[0]);
            reveal_strlit("char");
            assert("void"@[0] != "char"@[0]);
            reveal_strlit("const");
            assert("void"@.len() != "const"@.len());
            reveal_strlit("continue");
            assert("void"@.len() != "continue"@.len());
            reveal_strlit("default");
            assert("void"@.len() != "default"@.len());
            reveal_strlit("do");
            assert("void"@.len() != "do"@.len());
            reveal_strlit("double");
            assert("void"@.len() != "double"@.len());
            reveal_strlit("else");
            assert("void"@[0] != "else"@[0]);
            reveal_strlit("enum");
            assert("void"@[0] != "enum"@[0]);
            reveal_strlit("extern");
            assert("void"@.len() != "extern"@.len());
            reveal_strlit("float");
            assert("void"@.len() != "float"@.len());
            reveal_strlit("for");
            assert("void"@.len() != "for"@.len());
            reveal_strlit("goto");
            assert("void"@[0] != "goto"@[0]);
            reveal_strlit("if");
            assert("void"@.len() != "if"@.len());
            reveal_strlit("inline");
            assert("void"@.len() != "inline"@.len());
            reveal_strlit("int");
            assert("void"@.len() != "int"@.len());
            reveal_strlit("long");
            assert("void"@[0] != "long"@[0]);
            reveal_strlit("register");
            assert("void"@.len() != "register"@.len());
            reveal_strlit("restrict");
            assert("void"@.len() != "restrict"@.len());
            reveal_strlit("return");
            assert("void"@.len() != "return"@.len());
            reveal_strlit("short");
            assert("void"@.len() != "short"@.len());
            reveal_strlit("signed");
            assert("void"@.len() != "signed"@.len());
            reveal_strlit("sizeof");
            assert("void"@.len() != "sizeof"@.len());
            reveal_strlit("static");
            assert("void"@.len() != "static"@.len());
            reveal_strlit("struct");
            assert("void"@.len() != "struct"@.len());
            reveal_strlit("switch");
            assert("void"@.len() != "switch"@.len());
            reveal_strlit("typedef");
            assert("void"@.len() != "typedef"@.len());
            reveal_strlit("union");
            assert("void"@.len() != "union"@.len());
            reveal_strlit("unsigned");
            assert("void"@.len() != "unsigned"@.len());
        },
        Keyword::Volatile => {
            reveal_strlit("volatile");
            reveal_strlit("auto");
            assert("volatile"@.len() != "auto"@.len());
            reveal_strlit("break");
            assert("volatile"@.len() != "break"@.len());
            reveal_strlit("case");
            assert("volatile"@.len() != "case"@.len());
            reveal_strlit("char");
            assert("volatile"@.len() != "char"@.len());
            reveal_strlit("const");
            assert("volatile"@.len() != "const"@.len());
            reveal_strlit("continue");
            assert("volatile"@[0] != "continue"@[0]);
            reveal_strlit("default");
            assert("volatile"@.len() != "default"@.len());
            reveal_strlit("do");
            assert("volatile"@.len() != "do"@.len());
            reveal_strlit("double");
            assert("volatile"@.len() != "double"@.len());
            reveal_strlit("else");
            assert("volatile"@.len() != "else"@.len());
            reveal_strlit("enum");
            assert("volatile"@.len() != "enum"@.len());
            reveal_strlit("extern");
            assert("volatile"@.len() != "extern"@.len());
            reveal_strlit("float");
            assert("volatile"@.len() != "float"@.len());
            reveal_strlit("for");
            assert("volatile"@.len() != "for"@.len());
            reveal_strlit("goto");
            assert("volatile"@.len() != "goto"@.len());
            reveal_strlit("if");
            assert("volatile"@.len() != "if"@.len());
            reveal_strlit("inline");
            assert("volatile"@.len() != "inline"@.len());
            reveal_strlit("int");
            assert("volatile"@.len() != "int"@.len());
            reveal_strlit("long");
            assert("volatile"@.len() != "long"@.len());
            reveal_strlit("register");
            assert("volatile"@[0] != "register"@[0]);
            reveal_strlit("restrict");
            assert("volatile"@[0] != "restrict"@[0]);
            reveal_strlit("return");
            assert("volatile"@.len() != "return"@.len());
            reveal_strlit("short");
            assert("volatile"@.len() != "short"@.len());
            reveal_strlit("signed");
            assert("volatile"@.len() != "signed"@.len());
            reveal_strlit("sizeof");
            assert("volatile"@.len() != "sizeof"@.len());
            reveal_strlit("static");
            assert("volatile"@.len() != "static"@.len());
            reveal_strlit("struct");
            assert("volatile"@.len() != "struct"@.len());
            reveal_strlit("switch");
            assert("volatile"@.len() != "switch"@.len());
            reveal_strlit("typedef");
            assert("volatile"@.len() != "typedef"@.len());
            reveal_strlit("union");
            assert("volatile"@.len() != "union"@.len());
            reveal_strlit("unsigned");
            assert("volatile"@[0] != "unsigned"@[0]);
            reveal_strlit("void");
            assert("volatile"@.len() != "void"@.len());
        },
        Keyword::While => {
            reveal_strlit("while");
            reveal_strlit("auto");
            assert("while"@.len() != "auto"@.len());
            reveal_strlit("break");
            assert("while"@[0] != "break"@[0]);
            reveal_strlit("case");
            assert("while"@.len() != "case"@.len());
            reveal_strlit("char");
            assert("while"@.len() != "char"@.len());
            reveal_strlit("const");
            assert("while"@[0] != "const"@[0]);
            reveal_strlit("continue");
            assert("while"@.len() != "continue"@.len());
            reveal_strlit("default");
            assert("while"@.len() != "default"@.len());
            reveal_strlit("do");
            assert("while"@.len() != "do"@.len());
            reveal_strlit("double");
            assert("while"@.len() != "double"@.len());
            reveal_strlit("else");
            assert("while"@.len() != "else"@.len());
            reveal_strlit("enum");
            assert("while"@.len() != "enum"@.len());
            reveal_strlit("extern");
            assert("while"@.len() != "extern"@.len());
            reveal_strlit("float");
            assert("while"@[0] != "float"@[0]);
            reveal_strlit("for");
            assert("while"@.len() != "for"@.len());
            reveal_strlit("goto");
            assert("while"@.len() != "goto"@.len());
            reveal_strlit("if");
            assert("while"@.len() != "if"@.len());
            reveal_strlit("inline");
            assert("while"@.len() != "inline"@.len());
            reveal_strlit("int");
            assert("while"@.len() != "int"@.len());
            reveal_strlit("long");
            assert("while"@.len() != "long"@.len());
            reveal_strlit("register");
            assert("while"@.len() != "register"@.len());
            reveal_strlit("restrict");
            assert("while"@.len() != "restrict"@.len());
            reveal_strlit("return");
            assert("while"@.len() != "return"@.len());
            reveal_strlit("short");
            assert("while"@[0] != "short"@[0]);
            reveal_strlit("signed");
            assert("while"@.len() != "signed"@.len());
            reveal_strlit("sizeof");
            assert("while"@.len() != "sizeof"@.len());
            reveal_strlit("static");
            assert("while"@.len() != "static"@.len());
            reveal_strlit("struct");
            assert("while"@.len() != "struct"@.len());
            reveal_strlit("switch");
            assert("while"@.len() != "switch"@.len());
            reveal_strlit("typedef");
            assert("while"@.len() != "typedef"@.len());
            reveal_strlit("union");
            assert("while"@[0] != "union"@[0]);
            reveal_strlit("unsigned");
            assert("while"@.len() != "unsigned"@.len());
            reveal_strlit("void");
            assert("while"@.len() != "void"@.len());
            reveal_strlit("volatile");
            assert("while"@.len() != "volatile"@.len());
        },
        Keyword::Bool => {
            reveal_strlit("_Bool");
            reveal_strlit("auto");
            assert("_Bool"@.len() != "auto"@.len());
            reveal_strlit("break");
            assert("_Bool"@[0] != "break"@[0]);
            reveal_strlit("case");
            assert("_Bool"@.len() != "case"@.len());
            reveal_strlit("char");
            assert("_Bool"@.len() != "char"@.len());
            reveal_strlit("const");
            assert("_Bool"@[0] != "const"@[0]);
            reveal_strlit("continue");
            assert("_Bool"@.len() != "continue"@.len());
            reveal_strlit("default");
            assert("_Bool"@.len() != "default"@.len());
            reveal_strlit("do");
            assert("_Bool"@.len() != "do"@.len());
            reveal_strlit("double");
            assert("_Bool"@.len() != "double"@.len());
            reveal_strlit("else");
            assert("_Bool"@.len() != "else"@.len());
            reveal_strlit("enum");
            assert("_Bool"@.len() != "enum"@.len());
            reveal_strlit("extern");
            assert("_Bool"@.len() != "extern"@.len());
            reveal_strlit("float");
            assert("_Bool"@[0] != "float"@[0]);
            reveal_strlit("for");
            assert("_Bool"@.len() != "for"@.len());
            reveal_strlit("goto");
            assert("_Bool"@.len() != "goto"@.len());
            reveal_strlit("if");
            assert("_Bool"@.len() != "if"@.len());
            reveal_strlit("inline");
            assert("_Bool"@.len() != "inline"@.len());
            reveal_strlit("int");
            assert("_Bool"@.len() != "int"@.len());
            reveal_strlit("long");
            assert("_Bool"@.len() != "long"@.len());
            reveal_strlit("register");
            assert("_Bool"@.len() != "register"@.len());
            reveal_strlit("restrict");
            assert("_Bool"@.len() != "restrict"@.len());
            reveal_strlit("return");
            assert("_Bool"@.len() != "return"@.len());
            reveal_strlit("short");
            assert("_Bool"@[0] != "short"@[0]);
            reveal_strlit("signed");
            assert("_Bool"@.len() != "signed"@.len());
            reveal_strlit("sizeof");
            assert("_Bool"@.len() != "sizeof"@.len());
            reveal_strlit("static");
            assert("_Bool"@.len() != "static"@.len());
            reveal_strlit("struct");
            assert("_Bool"@.len() != "struct"@.len());
            reveal_strlit("switch");
            assert("_Bool"@.len() != "switch"@.len());
            reveal_strlit("typedef");
            assert("_Bool"@.len() != "typedef"@.len());
            reveal_strlit("union");
            assert("_Bool"@[0] != "union"@[0]);
            reveal_strlit("unsigned");
            assert("_Bool"@.len() != "unsigned"@.len());
            reveal_strlit("void");
            assert("_Bool"@.len() != "void"@.len());
            reveal_strlit("volatile");
            assert("_Bool"@.len() != "volatile"@.len());
            reveal_strlit("while");
            assert("_Bool"@[0] != "while"@[0]);
        },
        Keyword::Complex => {
            reveal_strlit("_Complex");
            reveal_strlit("auto");
            assert("_Complex"@.len() != "auto"@.len());
            reveal_strlit("break");
            assert("_Complex"@.len() != "break"@.len());
            reveal_strlit("case");
            assert("_Complex"@.len() != "case"@.len());
            reveal_strlit("char");
            assert("_Complex"@.len() != "char"@.len());
            reveal_strlit("const");
            assert("_Complex"@.len() != "const"@.len());
            reveal_strlit("continue");
            assert("_Complex"@[0] != "continue"@[0]);
            reveal_strlit("default");
            assert("_Complex"@.len() != "default"@.len());
            reveal_strlit("do");
            assert("_Complex"@.len() != "do"@.len());
            reveal_strlit("double");
            assert("_Complex"@.len() != "double"@.len());
            reveal_strlit("else");
            assert("_Complex"@.len() != "else"@.len());
            reveal_strlit("enum");
            assert("_Complex"@.len() != "enum"@.len());
            reveal_strlit("extern");
            assert("_Complex"@.len() != "extern"@.len());
            reveal_strlit("float");
            assert("_Complex"@.len() != "float"@.len());
            reveal_strlit("for");
            assert("_Complex"@.len() != "for"@.len());
            reveal_strlit("goto");
            assert("_Complex"@.len() != "goto"@.len());
            reveal_strlit("if");
            assert("_Complex"@.len() != "if"@.len());
            reveal_strlit("inline");
            assert("_Complex"@.len() != "inline"@.len());
            reveal_strlit("int");
            assert("_Complex"@.len() != "int"@.len());
            reveal_strlit("long");
            assert("_Complex"@.len() != "long"@.len());
            reveal_strlit("register");
            assert("_Complex"@[0] != "register"@[0]);
            reveal_strlit("restrict");
            assert("_Complex"@[0] != "restrict"@[0]);
            reveal_strlit("return");
            assert("_Complex"@.len() != "return"@.len());
            reveal_strlit("short");
            assert("_Complex"@.len() != "short"@.len());
            reveal_strlit("signed");
            assert("_Complex"@.len() != "signed"@.len());
            reveal_strlit("sizeof");
            assert("_Complex"@.len() != "sizeof"@.len());
            reveal_strlit("static");
            assert("_Complex"@.len() != "static"@.len());
            reveal_strlit("struct");
            assert("_Complex"@.len() != "struct"@.len());
            reveal_strlit("switch");
            assert("_Complex"@.len() != "switch"@.len());
            reveal_strlit("typedef");
            assert("_Complex"@.len() != "typedef"@.len());
            reveal_strlit("union");
            assert("_Complex"@.len() != "union"@.len());
            reveal_strlit("unsigned");
            assert("_Complex"@[0] != "unsigned"@[0]);
            reveal_strlit("void");
            assert("_Complex"@.len() != "void"@.len());
            reveal_strlit("volatile");
            assert("_Complex"@[0] != "volatile"@[0]);
            reveal_strlit("while");
            assert("_Complex"@.len() != "while"@.len());
            reveal_strlit("_Bool");
            assert("_Complex"@.len() != "_Bool"@.len());
        },
        Keyword::Imaginary => {
            reveal_strlit("_Imaginary");
            reveal_strlit("auto");
            assert("_Imaginary"@.len() != "auto"@.len());
            reveal_strlit("break");
            assert("_Imaginary"@.len() != "break"@.len());
            reveal_strlit("case");
            assert("_Imaginary"@.len() != "case"@.len());
            reveal_strlit("char");
            assert("_Imaginary"@.len() != "char"@.len());
            reveal_strlit("const");
            assert("_Imaginary"@.len() != "const"@.len());
            reveal_strlit("continue");
            assert("_Imaginary"@.len() != "continue"@.len());
            reveal_strlit("default");
            assert("_Imaginary"@.len() != "default"@.len());
            reveal_strlit("do");
            assert("_Imaginary"@.len() != "do"@.len());
            reveal_strlit("double");
            assert("_Imaginary"@.len() != "double"@.len());
            reveal_strlit("else");
            assert("_Imaginary"@.len() != "else"@.len());
            reveal_strlit("enum");
            assert("_Imaginary"@.len() != "enum"@.len());
            reveal_strlit("extern");
            assert("_Imaginary"@.len() != "extern"@.len());
            reveal_strlit("float");
            assert("_Imaginary"@.len() != "float"@.len());
            reveal_strlit("for");
            assert("_Imaginary"@.len() != "for"@.len());
            reveal_strlit("goto");
            assert("_Imaginary"@.len() != "goto"@.len());
            reveal_strlit("if");
            assert("_Imaginary"@.len() != "if"@.len());
            reveal_strlit("inline");
            assert("_Imaginary"@.len() != "inline"@.len());
            reveal_strlit("int");
            assert("_Imaginary"@.len() != "int"@.len());
            reveal_strlit("long");
            assert("_Imaginary"@.len() != "long"@.len());
            reveal_strlit("register");
            assert("_Imaginary"@.len() != "register"@.len());
            reveal_strlit("restrict");
            assert("_Imaginary"@.len() != "restrict"@.len());
            reveal_strlit("return");
            assert("_Imaginary"@.len() != "return"@.len());
            reveal_strlit("short");
            assert("_Imaginary"@.len() != "short"@.len());
            reveal_strlit("signed");
            assert("_Imaginary"@.len() != "signed"@.len());
            reveal_strlit("sizeof");
            assert("_Imaginary"@.len() != "sizeof"@.len());
            reveal_strlit("static");
            assert("_Imaginary"@.len() != "static"@.len());
            reveal_strlit("struct");
            assert("_Imaginary"@.len() != "struct"@.len());
            reveal_strlit("switch");
            assert("_Imaginary"@.len() != "switch"@.len());
            reveal_strlit("typedef");
            assert("_Imaginary"@.len() != "typedef"@.len());
            reveal_strlit("union");
            assert("_Imaginary"@.len() != "union"@.len());
            reveal_strlit("unsigned");
            assert("_Imaginary"@.len() != "unsigned"@.len());
            reveal_strlit("void");
            assert("_Imaginary"@.len() != "void"@.len());
            reveal_strlit("volatile");
            assert("_Imaginary"@.len() != "volatile"@.len());
            reveal_strlit("while");
            assert("_Imaginary"@.len() != "while"@.len());
            reveal_strlit("_Bool");
            assert("_Imaginary"@.len() != "_Bool"@.len());
            reveal_strlit("_Complex");
            assert("_Imaginary"@.len() != "_Complex"@.len());
        },
    }
}

impl Punctuator {
    /// The spelling of this punctuator.
    pub fn to_string(&self) -> (r: String)
        ensures
            r@ == punct_spelling(*self),
    {
        match self {
            Punctuator::LeftBracket => String::from_str("["),
            Punctuator::RightBracket => String::from_str("]"),
            Punctuator::LeftParen => String::from_str("("),
            Punctuator::RightParen => String::from_str(")"),
            Punctuator::LeftBrace => String::from_str("{"),
            Punctuator::RightBrace => String::from_str("}"),
            Punctuator::Dot => String::from_str("."),
            Punctuator::Arrow => String::from_str("->"),
            Punctuator::PlusPlus => String::from_str("++"),
            Punctuator::MinusMinus => String::from_str("--"),
            Punctuator::Ampersand => String::from_str("&"),
            Punctuator::Asterisk => String::from_str("*"),
            Punctuator::Plus => String::from_str("+"),
            Punctuator::Minus => String::from_str("-"),
            Punctuator::Tilde => String::from_str("~"),
            Punctuator::Bang => String::from_str("!"),
            Punctuator::Slash => String::from_str("/"),
            Punctuator::Percent => String::from_str("%"),
            Punctuator::LeftLeft => String::from_str("<<"),
            Punctuator::RightRight => String::from_str(">>"),
            Punctuator::Left => String::from_str("<"),
            Punctuator::Right => String::from_str(">"),
            Punctuator::LeftEqual => String::from_str("<="),
            Punctuator::RightEqual => String::from_str(">="),
            Punctuator::EqualEqual => String::from_str("=="),
            Punctuator::BangEqual => String::from_str("!="),
            Punctuator::Caret => String::from_str("^"),
            Punctuator::Pipe => String::from_str("|"),
            Punctuator::AndAnd => String::from_str("&&"),
            Punctuator::PipePipe => String::from_str("||"),
            Punctuator::Question => String::from_str("?"),
            Punctuator::Colon => String::from_str(":"),
            Punctuator::Semicolon => String::from_str(";"),
            Punctuator::DotDotDot => String::from_str("..."),
            Punctuator::Equal => String::from_str("="),
            Punctuator::AsteriskEqual => String::from_str("*="),
            Punctuator::SlashEqual => String::from_str("/="),
            Punctuator::PercentEqual => String::from_str("%="),
            Punctuator::PlusEqual => String::from_str("+="),
            Punctuator::MinusEqual => String::from_str("-="),
            Punctuator::LeftLeftEqual => String::from_str("<<="),
            Punctuator::RightRightEqual => String::from_str(">>="),
            Punctuator::AndEqual => String::from_str("&="),
            Punctuator::CaretEqual => String::from_str("^="),
            Punctuator::PipeEqual => String::from_str("|="),
            Punctuator::Comma => String::from_str(","),
            Punctuator::Directive => String::from_str("\u{266f}"),
            Punctuator::Hash => String::from_str("#"),
            Punctuator::HashHash => String::from_str("##"),
            Punctuator::LeftColon => String::from_str("<:"),
            Punctuator::ColonRight => String::from_str(":>"),
            Punctuator::LessPercent => String::from_str("<%"),
            Punctuator::PercentRight => String::from_str("%>"),
            Punctuator::PercentColon => String::from_str("%:"),
            Punctuator::PercentColonPercentColon => String::from_str("%:%:"),
        }
    }

    pub fn is_punctuation(c: char) -> (r: bool)
        ensures
            r == punct_of_char(c).is_some(),
    {
        Punctuator::from_char(c).is_some()
    }

    pub fn from_char(c: char) -> (r: Option<Punctuator>)
        ensures
            r == punct_of_char(c),
    {
        match c {
            '[' => Some(Punctuator::LeftBracket),
            ']' => Some(Punctuator::RightBracket),
            '(' => Some(Punctuator::LeftParen),
            ')' => Some(Punctuator::RightParen),
            '{' => Some(Punctuator::LeftBrace),
            '}' => Some(Punctuator::RightBrace),
            '.' => Some(Punctuator::Dot),
            '&' => Some(Punctuator::Ampersand),
            '*' => Some(Punctuator::Asterisk),
            '+' => Some(Punctuator::Plus),
            '-' => Some(Punctuator::Minus),
            '~' => Some(Punctuator::Tilde),
            '!' => Some(Punctuator::Bang),
            '/' => Some(Punctuator::Slash),
            '%' => Some(Punctuator::Percent),
            '<' => Some(Punctuator::Left),
            '>' => Some(Punctuator::Right),
            '^' => Some(Punctuator::Caret),
            '|' => Some(Punctuator::Pipe),
            '?' => Some(Punctuator::Question),
            ':' => Some(Punctuator::Colon),
            ';' => Some(Punctuator::Semicolon),
            '=' => Some(Punctuator::Equal),
            ',' => Some(Punctuator::Comma),
            '#' => Some(Punctuator::Hash),
            _ => None,
        }
    }
}

/// How a keyword is written in source.
pub open spec fn keyword_spelling(k: Keyword) -> Seq<char> {
    match k {
        Keyword::Auto => "auto"@,
        Keyword::Break => "break"@,
        Keyword::Case => "case"@,
        Keyword::Char => "char"@,
        Keyword::Const => "const"@,
        Keyword::Continue => "continue"@,
        Keyword::Default => "default"@,
        Keyword::Do => "do"@,
        Keyword::Double => "double"@,
        Keyword::Else => "else"@,
        Keyword::Enum => "enum"@,
        Keyword::Extern => "extern"@,
        Keyword::Float => "float"@,
        Keyword::For => "for"@,
        Keyword::Goto => "goto"@,
        Keyword::If => "if"@,
        Keyword::Inline => "inline"@,
        Keyword::Int => "int"@,
        Keyword::Long => "long"@,
        Keyword::Register => "register"@,
        Keyword::Restrict => "restrict"@,
        Keyword::Return => "return"@,
        Keyword::Short => "short"@,
        Keyword::Signed => "signed"@,
        Keyword::Sizeof => "sizeof"@,
        Keyword::Static => "static"@,
        Keyword::Struct => "struct"@,
        Keyword::Switch => "switch"@,
        Keyword::Typedef => "typedef"@,
        Keyword::Union => "union"@,
        Keyword::Unsigned => "unsigned"@,
        Keyword::Void => "void"@,
        Keyword::Volatile => "volatile"@,
        Keyword::While => "while"@,
        Keyword::Bool => "_Bool"@,
        Keyword::Complex => "_Complex"@,
        Keyword::Imaginary => "_Imaginary"@,
    }
}

/// The keyword spelled `s`, if any.
pub open spec fn keyword_of(s: Seq<char>) -> Option<Keyword> {
    if s == "auto"@ {
        Some(Keyword::Auto)
    }
    else if s == "break"@ {
        Some(Keyword::Break)
    }
    else if s == "case"@ {
        Some(Keyword::Case)
    }
    else if s == "char"@ {
        Some(Keyword::Char)
    }
    else if s == "const"@ {
        Some(Keyword::Const)
    }
    else if s == "continue"@ {
        Some(Keyword::Continue)
    }
    else if s == "default"@ {
        Some(Keyword::Default)
    }
    else if s == "do"@ {
        Some(Keyword::Do)
    }
    else if s == "double"@ {
        Some(Keyword::Double)
    }
    else if s == "else"@ {
        Some(Keyword::Else)
    }
    else if s == "enum"@ {
        Some(Keyword::Enum)
    }
    else if s == "extern"@ {
        Some(Keyword::Extern)
    }
    else if s == "float"@ {
        Some(Keyword::Float)
    }
    else if s == "for"@ {
        Some(Keyword::For)
    }
    else if s == "goto"@ {
        Some(Keyword::Goto)
    }
    else if s == "if"@ {
        Some(Keyword::If)
    }
    else if s == "inline"@ {
        Some(Keyword::Inline)
    }
    else if s == "int"@ {
        Some(Keyword::Int)
    }
    else if s == "long"@ {
        Some(Keyword::Long)
    }
    else if s == "register"@ {
        Some(Keyword::Register)
    }
    else if s == "restrict"@ {
        Some(Keyword::Restrict)
    }
    else if s == "return"@ {
        Some(Keyword::Return)
    }
    else if s == "short"@ {
        Some(Keyword::Short)
    }
    else if s == "signed"@ {
        Some(Keyword::Signed)
    }
    else if s == "sizeof"@ {
        Some(Keyword::Sizeof)
    }
    else if s == "static"@ {
        Some(Keyword::Static)
    }
    else if s == "struct"@ {
        Some(Keyword::Struct)
    }
    else if s == "switch"@ {
        Some(Keyword::Switch)
    }
    else if s == "typedef"@ {
        Some(Keyword::Typedef)
    }
    else if s == "union"@ {
        Some(Keyword::Union)
    }
    else if s == "unsigned"@ {
        Some(Keyword::Unsigned)
    }
    else if s == "void"@ {
        Some(Keyword::Void)
    }
    else if s == "volatile"@ {
        Some(Keyword::Volatile)
    }
    else if s == "while"@ {
        Some(Keyword::While)
    }
    else if s == "_Bool"@ {
        Some(Keyword::Bool)
    }
    else if s == "_Complex"@ {
        Some(Keyword::Complex)
    }
    else if s == "_Imaginary"@ {
        Some(Keyword::Imaginary)
    }
    else {
        None
    }
}

impl Keyword {
    /// The keyword spelled `s`, if any.
    pub fn from_str(s: &str) -> (r: Option<Keyword>)
        ensures
            r == keyword_of(s@),
    {
        if str_eq(s, "auto") {
            return Some(Keyword::Auto);
        }
        if str_eq(s, "break") {
            return Some(Keyword::Break);
        }
        if str_eq(s, "case") {
            return Some(Keyword::Case);
        }
        if str_eq(s, "char") {
            return Some(Keyword::Char);
        }
        if str_eq(s, "const") {
            return Some(Keyword::Const);
        }
        if str_eq(s, "continue") {
            return Some(Keyword::Continue);
        }
        if str_eq(s, "default") {
            return Some(Keyword::Default);
        }
        if str_eq(s, "do") {
            return Some(Keyword::Do);
        }
        if str_eq(s, "double") {
            return Some(Keyword::Double);
        }
        if str_eq(s, "else") {
            return Some(Keyword::Else);
        }
        if str_eq(s, "enum") {
            return Some(Keyword::Enum);
        }
        if str_eq(s, "extern") {
            return Some(Keyword::Extern);
        }
        if str_eq(s, "float") {
            return Some(Keyword::Float);
        }
        if str_eq(s, "for") {
            return Some(Keyword::For);
        }
        if str_eq(s, "goto") {
            return Some(Keyword::Goto);
        }
        if str_eq(s, "if") {
            return Some(Keyword::If);
        }
        if str_eq(s, "inline") {
            return Some(Keyword::Inline);
        }
        if str_eq(s, "int") {
            return Some(Keyword::Int);
        }
        if str_eq(s, "long") {
            return Some(Keyword::Long);
        }
        if str_eq(s, "register") {
            return Some(Keyword::Register);
        }
        if str_eq(s, "restrict") {
            return Some(Keyword::Restrict);
        }
        if str_eq(s, "return") {
            return Some(Keyword::Return);
        }
        if str_eq(s, "short") {
            return Some(Keyword::Short);
        }
        if str_eq(s, "signed") {
            return Some(Keyword::Signed);
        }
        if str_eq(s, "sizeof") {
            return Some(Keyword::Sizeof);
        }
        if str_eq(s, "static") {
            return Some(Keyword::Static);
        }
        if str_eq(s, "struct") {
            return Some(Keyword::Struct);
        }
        if str_eq(s, "switch") {
            return Some(Keyword::Switch);
        }
        if str_eq(s, "typedef") {
            return Some(Keyword::Typedef);
        }
        if str_eq(s, "union") {
            return Some(Keyword::Union);
        }
        if str_eq(s, "unsigned") {
            return Some(Keyword::Unsigned);
        }
        if str_eq(s, "void") {
            return Some(Keyword::Void);
        }
        if str_eq(s, "volatile") {
            return Some(Keyword::Volatile);
        }
        if str_eq(s, "while") {
            return Some(Keyword::While);
        }
        if str_eq(s, "_Bool") {
            return Some(Keyword::Bool);
        }
        if str_eq(s, "_Complex") {
            return Some(Keyword::Complex);
        }
        if str_eq(s, "_Imaginary") {
            return Some(Keyword::Imaginary);
        }
        None
    }

    /// The spelling of this keyword.
    pub fn to_string(&self) -> (r: String)
        ensures
            r@ == keyword_spelling(*self),
    {
        match self {
            Keyword::Auto => String::from_str("auto"),
            Keyword::Break => String::from_str("break"),
            Keyword::Case => String::from_str("case"),
            Keyword::Char => String::from_str("char"),
            Keyword::Const => String::from_str("const"),
            Keyword::Continue => String::from_str("continue"),
            Keyword::Default => String::from_str("default"),
            Keyword::Do => String::from_str("do"),
            Keyword::Double => String::from_str("double"),
            Keyword::Else => String::from_str("else"),
            Keyword::Enum => String::from_str("enum"),
            Keyword::Extern => String::from_str("extern"),
            Keyword::Float => String::from_str("float"),
            Keyword::For => String::from_str("for"),
            Keyword::Goto => String::from_str("goto"),
            Keyword::If => String::from_str("if"),
            Keyword::Inline => String::from_str("inline"),
            Keyword::Int => String::from_str("int"),
            Keyword::Long => String::from_str("long"),
            Keyword::Register => String::from_str("register"),
            Keyword::Restrict => String::from_str("restrict"),
            Keyword::Return => String::from_str("return"),
            Keyword::Short => String::from_str("short"),
            Keyword::Signed => String::from_str("signed"),
            Keyword::Sizeof => String::from_str("sizeof"),
            Keyword::Static => String::from_str("static"),
            Keyword::Struct => String::from_str("struct"),
            Keyword::Switch => String::from_str("switch"),
            Keyword::Typedef => String::from_str("typedef"),
            Keyword::Union => String::from_str("union"),
            Keyword::Unsigned => String::from_str("unsigned"),
            Keyword::Void => String::from_str("void"),
            Keyword::Volatile => String::from_str("volatile"),
            Keyword::While => String::from_str("while"),
            Keyword::Bool => String::from_str("_Bool"),
            Keyword::Complex => String::from_str("_Complex"),
            Keyword::Imaginary => String::from_str("_Imaginary"),
        }
    }
}

impl PreprocessingToken {
    /// A copy of this token, equal to it.
    pub fn duplicate(&self) -> (r: Self)
        ensures
            token_view(r) == token_view(*self),
        decreases self, 0int,
    {
        match self {
            PreprocessingToken::Identifier(s) => PreprocessingToken::Identifier(s.clone()),
            PreprocessingToken::BlueIdentifier(s) => PreprocessingToken::BlueIdentifier(s.clone()),
            PreprocessingToken::StringLiteral(s) => PreprocessingToken::StringLiteral(s.clone()),
            PreprocessingToken::CharLiteral(s) => PreprocessingToken::CharLiteral(s.clone()),
            PreprocessingToken::PPNumber(s) => PreprocessingToken::PPNumber(s.clone()),
            PreprocessingToken::ControlLine(v) => PreprocessingToken::ControlLine(copy_tokens(v)),
            PreprocessingToken::Whitespace(w) => PreprocessingToken::Whitespace(*w),
            PreprocessingToken::Punctuator(p) => PreprocessingToken::Punctuator(*p),
            PreprocessingToken::Delimited(d) => {
                let opener = copy_token(&d.opener);
                let closer = copy_token(&d.closer);
                let inner_tokens = copy_tokens(&d.inner_tokens);
                PreprocessingToken::Delimited(Box::new(Delimited { opener, closer, inner_tokens }))
            },
        }
    }

    /// The opener, closer and inner tokens of a delimited group.
    pub fn as_delimited(self) -> (r: (Spanned<PreprocessingToken>, Spanned<PreprocessingToken>, Vec<Spanned<PreprocessingToken>>))
        requires
            self is Delimited,
        ensures
            r.0 == self->Delimited_0.opener,
            r.1 == self->Delimited_0.closer,
            r.2 == self->Delimited_0.inner_tokens,
    {
        match self {
            PreprocessingToken::Delimited(d) => (d.opener, d.closer, d.inner_tokens),
            _ => {
                proof {
                    assert(false);
                }
                (Spanned::new(Location::new(), PreprocessingToken::Whitespace(Whitespace::Space)), Spanned::new(Location::new(), PreprocessingToken::Whitespace(Whitespace::Space)), Vec::new())
            },
        }
    }
}

} // verus!

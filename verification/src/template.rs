//! Templates: text with `$name$` placeholders.
//!
//! A template is cut into literals and variables. A variable is a name
//! between two `$`; its characters are letters, digits, `_`, `-` and `.`. Two
//! `$` in a row stand for one `$`. Any other `$` makes the template
//! malformed, and a malformed template is left as it is.
//!
//! Which characters are letters or digits is Unicode's matter. The cutting
//! itself takes that as given: it reads a list that says so for each
//! character of the template.

use crate::metadata::Metadata;
use crate::text::{chars_of, split_chars};
use vstd::prelude::*;
use vstd::string::StringExecFns;

verus! {

/// A piece of a template.
#[derive(Debug)]
pub enum TemplateNode<'a> {
    /// Text that is copied as it stands.
    Literal(&'a str),
    /// A name to look up. The empty name is the escape `$$`, which stands for
    /// one `$`.
    Variable(&'a str),
}

/// A piece of a template, by its characters.
pub enum Token {
    Literal(Seq<char>),
    Variable(Seq<char>),
}

impl<'a> View for TemplateNode<'a> {
    type V = Token;

    open spec fn view(&self) -> Token {
        match self {
            TemplateNode::Literal(text) => Token::Literal(text@),
            TemplateNode::Variable(name) => Token::Variable(name@),
        }
    }
}

/// The pieces of `nodes`, by their characters.
pub open spec fn tokens_of(nodes: Seq<TemplateNode>) -> Seq<Token> {
    Seq::new(nodes.len(), |i: int| nodes[i]@)
}

/// Whether `c` is alphabetic or numeric in Unicode's sense: the answer of
/// `char::is_alphanumeric`.
pub uninterp spec fn alphanumeric(c: char) -> bool;

/// `char::is_alphanumeric` of the standard library. It depends on the
/// character alone.
#[verifier::external_body]
fn is_alphanumeric(c: char) -> (b: bool)
    ensures
        b == alphanumeric(c),
{
    c.is_alphanumeric()
}

/// For each character of `t`, whether it is a letter or a digit.
pub open spec fn letters_of(t: Seq<char>) -> Seq<bool> {
    Seq::new(t.len(), |i: int| alphanumeric(t[i]))
}

/// Whether the character of `t` at index `at` may stand in the name of a
/// variable: it is a letter or a digit, as `letters` says, or `_`, `-` or
/// `.`. The `$` is never one, and where `letters` is too short to say, the
/// character is no letter.
pub open spec fn is_name_at(t: Seq<char>, letters: Seq<bool>, at: int) -> bool {
    &&& 0 <= at < t.len()
    &&& t[at] != '$'
    &&& (at < letters.len() && letters[at]) || t[at] == '_' || t[at] == '-' || t[at] == '.'
}

/// The number of characters from index `from` on that are not `$`, up to the
/// first `$` or the end.
pub open spec fn literal_len(t: Seq<char>, from: int) -> nat
    decreases t.len() - from,
{
    if 0 <= from < t.len() && t[from] != '$' {
        1 + literal_len(t, from + 1)
    } else {
        0
    }
}

/// The number of name characters from index `from` on, up to the first
/// character that is none, or the end.
pub open spec fn name_len(t: Seq<char>, letters: Seq<bool>, from: int) -> nat
    decreases t.len() - from,
{
    if is_name_at(t, letters, from) {
        1 + name_len(t, letters, from + 1)
    } else {
        0
    }
}

/// What `literal_len` computes, said without recursion.
pub proof fn lemma_literal_len(t: Seq<char>, from: int)
    requires
        0 <= from <= t.len(),
    ensures
        from + literal_len(t, from) <= t.len(),
        forall|i: int| from <= i < from + literal_len(t, from) ==> #[trigger] t[i] != '$',
        from + literal_len(t, from) < t.len() ==> t[from + literal_len(t, from)] == '$',
    decreases t.len() - from,
{
    if from < t.len() && t[from] != '$' {
        lemma_literal_len(t, from + 1);
    }
}

/// What `name_len` computes, said without recursion.
pub proof fn lemma_name_len(t: Seq<char>, letters: Seq<bool>, from: int)
    requires
        0 <= from <= t.len(),
    ensures
        from + name_len(t, letters, from) <= t.len(),
        forall|i: int|
            from <= i < from + name_len(t, letters, from) ==> #[trigger] is_name_at(t, letters, i),
        !is_name_at(t, letters, from + name_len(t, letters, from)),
    decreases t.len() - from,
{
    if is_name_at(t, letters, from) {
        lemma_name_len(t, letters, from + 1);
    }
}

/// `first` before the tokens of `rest`, where there are any.
pub open spec fn prepend(first: Token, rest: Option<Seq<Token>>) -> Option<Seq<Token>> {
    match rest {
        Some(tokens) => Some(seq![first] + tokens),
        None => None,
    }
}

/// The tokens of `t` from index `from` on. A `$` opens a variable: the name
/// characters after it, as many as there are, and then a `$`. `None` where a
/// `$` is not followed so.
pub open spec fn tokens_from(t: Seq<char>, letters: Seq<bool>, from: int) -> Option<Seq<Token>>
    decreases t.len() - from,
{
    if from < 0 || from >= t.len() {
        Some(Seq::empty())
    } else if t[from] != '$' {
        let end = from + literal_len(t, from);
        proof {
            lemma_literal_len(t, from);
        }
        prepend(Token::Literal(t.subrange(from, end)), tokens_from(t, letters, end))
    } else {
        let close = from + 1 + name_len(t, letters, from + 1);
        if close < t.len() && t[close] == '$' {
            prepend(
                Token::Variable(t.subrange(from + 1, close)),
                tokens_from(t, letters, close + 1),
            )
        } else {
            None
        }
    }
}

/// The tokens of the template `t`, or `None` where `t` is malformed, with
/// the letters and digits of `t` as `letters` says.
pub open spec fn tokens_with(t: Seq<char>, letters: Seq<bool>) -> Option<Seq<Token>> {
    tokens_from(t, letters, 0)
}

/// The tokens of the template `t`, or `None` where `t` is malformed.
pub open spec fn tokens(t: Seq<char>) -> Option<Seq<Token>> {
    tokens_with(t, letters_of(t))
}

/// What a token becomes: a literal itself, the escape a `$`, a variable its
/// value in `m`, and its bare name where `m` has none.
pub open spec fn render_token(token: Token, m: Map<Seq<char>, Seq<char>>) -> Seq<char> {
    match token {
        Token::Literal(text) => text,
        Token::Variable(name) => if name.len() == 0 {
            seq!['$']
        } else if m.contains_key(name) {
            m[name]
        } else {
            name
        },
    }
}

/// What the tokens become, one after the other.
pub open spec fn render_tokens(tokens: Seq<Token>, m: Map<Seq<char>, Seq<char>>) -> Seq<char>
    decreases tokens.len(),
{
    if tokens.len() == 0 {
        Seq::empty()
    } else {
        render_tokens(tokens.drop_last(), m) + render_token(tokens.last(), m)
    }
}

/// The template `t` filled in from `m`, or `t` itself where it is malformed,
/// with the letters and digits of `t` as `letters` says.
pub open spec fn interpolate_with(
    t: Seq<char>,
    letters: Seq<bool>,
    m: Map<Seq<char>, Seq<char>>,
) -> Seq<char> {
    match tokens_with(t, letters) {
        Some(tokens) => render_tokens(tokens, m),
        None => t,
    }
}

/// The template `t` filled in from `m`; `t` itself where it is malformed.
pub open spec fn interpolate(t: Seq<char>, m: Map<Seq<char>, Seq<char>>) -> Seq<char> {
    interpolate_with(t, letters_of(t), m)
}

/// The text that a token was cut from.
pub open spec fn source(token: Token) -> Seq<char> {
    match token {
        Token::Literal(text) => text,
        Token::Variable(name) => seq!['$'] + name + seq!['$'],
    }
}

/// The texts that the tokens were cut from, one after the other.
pub open spec fn sources(tokens: Seq<Token>) -> Seq<char>
    decreases tokens.len(),
{
    if tokens.len() == 0 {
        Seq::empty()
    } else {
        sources(tokens.drop_last()) + source(tokens.last())
    }
}

/// Whether a token is one that cutting a template can give: a literal is not
/// empty, and neither a literal nor a name holds a `$`.
pub open spec fn is_cut(token: Token) -> bool {
    match token {
        Token::Literal(text) => text.len() > 0 && !text.contains('$'),
        Token::Variable(name) => !name.contains('$'),
    }
}

proof fn lemma_one_token(token: Token, m: Map<Seq<char>, Seq<char>>)
    ensures
        seq![token] + Seq::<Token>::empty() == seq![token],
        render_tokens(seq![token], m) == render_token(token, m),
{
    let only = seq![token];
    assert(only + Seq::<Token>::empty() =~= only);
    assert(only.drop_last() =~= Seq::<Token>::empty());
    assert(render_tokens(only.drop_last(), m) =~= Seq::<char>::empty());
    assert(render_tokens(only, m) =~= render_token(only.last(), m));
}

/// A template without any `$` comes back unchanged, whatever the metadata and
/// whatever its letters.
pub proof fn lemma_plain_template_unchanged(
    t: Seq<char>,
    letters: Seq<bool>,
    m: Map<Seq<char>, Seq<char>>,
)
    requires
        !t.contains('$'),
    ensures
        interpolate_with(t, letters, m) == t,
        interpolate(t, m) == t,
{
    if t.len() > 0 {
        lemma_literal_len(t, 0);
        let end = literal_len(t, 0) as int;
        assert(t.contains(t[0]));
        if end < t.len() {
            assert(t.contains(t[end]));
        }
        assert(t.subrange(0, end) =~= t);
        lemma_one_token(Token::Literal(t), m);
        assert(tokens_from(t, letters, end) == Some(Seq::<Token>::empty()));
        assert(tokens_with(t, letters) == Some(seq![Token::Literal(t)]));
        assert(tokens_from(t, letters_of(t), end) == Some(Seq::<Token>::empty()));
        assert(tokens(t) == Some(seq![Token::Literal(t)]));
    }
}

proof fn lemma_sources_prepend(first: Token, rest: Seq<Token>)
    ensures
        sources(seq![first] + rest) == source(first) + sources(rest),
    decreases rest.len(),
{
    let all = seq![first] + rest;
    if rest.len() == 0 {
        assert(all.drop_last() =~= Seq::<Token>::empty());
        assert(all.last() == first);
        assert(sources(rest) =~= Seq::<char>::empty());
        assert(sources(all.drop_last()) =~= Seq::<char>::empty());
        assert(sources(all) =~= source(first));
    } else {
        lemma_sources_prepend(first, rest.drop_last());
        assert(all.drop_last() =~= seq![first] + rest.drop_last());
        assert(all.last() == rest.last());
        assert(sources(all) =~= source(first) + sources(rest));
    }
}

proof fn lemma_tokens_from(t: Seq<char>, letters: Seq<bool>, from: int)
    requires
        0 <= from <= t.len(),
    ensures
        tokens_from(t, letters, from) matches Some(cut) ==> {
            &&& sources(cut) == t.subrange(from, t.len() as int)
            &&& forall|i: int| 0 <= i < cut.len() ==> is_cut(#[trigger] cut[i])
            &&& forall|i: int|
                0 <= i < cut.len() - 1 ==> !(#[trigger] cut[i] is Literal && cut[i + 1] is Literal)
            &&& cut.len() > 0 && cut[0] is Literal ==> t[from] != '$'
            &&& cut.len() > 0 && cut[0] is Variable ==> t[from] == '$'
        },
    decreases t.len() - from,
{
    if from >= t.len() {
        assert(t.subrange(from, t.len() as int) =~= Seq::<char>::empty());
    } else if t[from] != '$' {
        lemma_literal_len(t, from);
        let end = from + literal_len(t, from);
        lemma_tokens_from(t, letters, end);
        if let Some(rest) = tokens_from(t, letters, end) {
            let first = Token::Literal(t.subrange(from, end));
            let cut = seq![first] + rest;
            lemma_sources_prepend(first, rest);
            assert(sources(cut) =~= t.subrange(from, t.len() as int));
            assert(is_cut(first)) by {
                let text = t.subrange(from, end);
                if text.contains('$') {
                    let i = choose|i: int| 0 <= i < text.len() && text[i] == '$';
                    assert(t[from + i] == '$');
                }
            }
            assert forall|i: int| 0 <= i < cut.len() implies is_cut(#[trigger] cut[i]) by {
                if i > 0 {
                    assert(cut[i] == rest[i - 1]);
                }
            }
            assert forall|i: int| 0 <= i < cut.len() - 1 implies !(#[trigger] cut[i] is Literal
                && cut[i + 1] is Literal) by {
                if i > 0 {
                    assert(cut[i] == rest[i - 1]);
                    assert(cut[i + 1] == rest[i]);
                } else {
                    assert(cut[1] == rest[0]);
                }
            }
        }
    } else {
        lemma_name_len(t, letters, from + 1);
        let close = from + 1 + name_len(t, letters, from + 1);
        if close < t.len() && t[close] == '$' {
            lemma_tokens_from(t, letters, close + 1);
            if let Some(rest) = tokens_from(t, letters, close + 1) {
                let name = t.subrange(from + 1, close);
                let first = Token::Variable(name);
                let cut = seq![first] + rest;
                lemma_sources_prepend(first, rest);
                assert(source(first) =~= t.subrange(from, close + 1));
                assert(sources(cut) =~= t.subrange(from, t.len() as int));
                assert(is_cut(first)) by {
                    if name.contains('$') {
                        let i = choose|i: int| 0 <= i < name.len() && name[i] == '$';
                        assert(is_name_at(t, letters, from + 1 + i));
                    }
                }
                assert forall|i: int| 0 <= i < cut.len() implies is_cut(#[trigger] cut[i]) by {
                    if i > 0 {
                        assert(cut[i] == rest[i - 1]);
                    }
                }
                assert forall|i: int| 0 <= i < cut.len() - 1 implies !(#[trigger] cut[i] is Literal
                    && cut[i + 1] is Literal) by {
                    if i > 0 {
                        assert(cut[i] == rest[i - 1]);
                        assert(cut[i + 1] == rest[i]);
                    }
                }
            }
        }
    }
}

/// The tokens of a template are cut from it without loss: put together
/// again, they are the template. No literal is empty, no literal and no name
/// holds a `$`, and no literal follows another.
pub proof fn lemma_tokens_cover(t: Seq<char>, letters: Seq<bool>)
    ensures
        tokens_with(t, letters) matches Some(cut) ==> {
            &&& sources(cut) == t
            &&& forall|i: int| 0 <= i < cut.len() ==> is_cut(#[trigger] cut[i])
            &&& forall|i: int|
                0 <= i < cut.len() - 1 ==> !(#[trigger] cut[i] is Literal && cut[i + 1] is Literal)
        },
{
    lemma_tokens_from(t, letters, 0);
    assert(t.subrange(0, t.len() as int) =~= t);
}

/// A template that is one variable becomes the variable's value, or its bare
/// name where the metadata has no value for it.
pub proof fn lemma_variable_alone(
    name: Seq<char>,
    letters: Seq<bool>,
    m: Map<Seq<char>, Seq<char>>,
)
    requires
        name.len() > 0,
        forall|i: int|
            1 <= i <= name.len() ==> #[trigger] is_name_at(
                seq!['$'] + name + seq!['$'],
                letters,
                i,
            ),
    ensures
        interpolate_with(seq!['$'] + name + seq!['$'], letters, m) == if m.contains_key(name) {
            m[name]
        } else {
            name
        },
{
    let t = seq!['$'] + name + seq!['$'];
    lemma_name_len(t, letters, 1);
    let run = name_len(t, letters, 1) as int;
    assert(run == name.len()) by {
        if run < name.len() {
            assert(is_name_at(t, letters, 1 + run));
        }
        if run > name.len() {
            assert(is_name_at(t, letters, 1 + name.len() as int));
        }
    }
    assert(t.subrange(1, 1 + run) =~= name);
    lemma_one_token(Token::Variable(name), m);
    assert(tokens_from(t, letters, 2 + run) == Some(Seq::<Token>::empty()));
    assert(tokens_with(t, letters) == Some(seq![Token::Variable(name)]));
}

/// A template that is `$$` becomes `$`.
pub proof fn lemma_escape_alone(letters: Seq<bool>, m: Map<Seq<char>, Seq<char>>)
    ensures
        interpolate_with(seq!['$', '$'], letters, m) == seq!['$'],
{
    let t = seq!['$', '$'];
    let empty = Seq::<char>::empty();
    assert(name_len(t, letters, 1) == 0);
    assert(t.subrange(1, 1) =~= empty);
    lemma_one_token(Token::Variable(empty), m);
    assert(tokens_from(t, letters, 2) == Some(Seq::<Token>::empty()));
    assert(tokens_with(t, letters) == Some(seq![Token::Variable(empty)]));
}

/// For each character, whether it is a letter or a digit.
fn classify(chars: &Vec<char>) -> (letters: Vec<bool>)
    ensures
        letters@ == letters_of(chars@),
{
    let mut letters: Vec<bool> = Vec::new();
    let mut i: usize = 0;
    while i < chars.len()
        invariant
            i <= chars.len(),
            letters@ == letters_of(chars@).take(i as int),
        decreases chars.len() - i,
    {
        letters.push(is_alphanumeric(chars[i]));
        assert(letters@ =~= letters_of(chars@).take(i + 1));
        i += 1;
    }
    assert(letters@ =~= letters_of(chars@));
    letters
}

/// The literal at the head of `rest`: what is left of `rest` after it, the
/// literal, and the index after it. `rest` is the text from index `at` on.
fn parse_literal<'a>(rest: &'a str, chars: &Vec<char>, at: usize) -> (r: (
    &'a str,
    TemplateNode<'a>,
    usize,
))
    requires
        at < chars.len(),
        rest@ == chars@.skip(at as int),
        chars[at as int] != '$',
    ensures
        r.2 == at + literal_len(chars@, at as int),
        at < r.2 <= chars.len(),
        r.1@ == Token::Literal(chars@.subrange(at as int, r.2 as int)),
        r.0@ == chars@.skip(r.2 as int),
{
    let mut end = at + 1;
    while end < chars.len() && chars[end] != '$'
        invariant
            at < end <= chars.len(),
            at + literal_len(chars@, at as int) == end + literal_len(chars@, end as int),
        decreases chars.len() - end,
    {
        end += 1;
    }
    let (text, tail) = split_chars(rest, end - at);
    assert(text@ =~= chars@.subrange(at as int, end as int));
    assert(tail@ =~= chars@.skip(end as int));
    (tail, TemplateNode::Literal(text), end)
}

/// Whether the character at index `at` may stand in a name.
fn name_char_at(chars: &Vec<char>, letters: &Vec<bool>, at: usize) -> (b: bool)
    ensures
        b == is_name_at(chars@, letters@, at as int),
{
    if at >= chars.len() {
        return false;
    }
    let c = chars[at];
    c != '$' && ((at < letters.len() && letters[at]) || c == '_' || c == '-' || c == '.')
}

/// The variable at the head of `rest`, which starts with a `$`: what is left
/// of `rest` after the closing `$`, the variable, and the index after it.
/// `None` where the name is not closed by a `$`. `rest` is the text from
/// index `at` on.
fn parse_variable<'a>(rest: &'a str, chars: &Vec<char>, letters: &Vec<bool>, at: usize) -> (r:
    Option<(&'a str, TemplateNode<'a>, usize)>)
    requires
        at < chars.len(),
        rest@ == chars@.skip(at as int),
        chars[at as int] == '$',
    ensures
        ({
            let close = at + 1 + name_len(chars@, letters@, at + 1);
            match r {
                Some((tail, node, next)) => {
                    &&& close < chars.len()
                    &&& chars[close] == '$'
                    &&& next == close + 1
                    &&& node@ == Token::Variable(chars@.subrange(at + 1, close))
                    &&& tail@ == chars@.skip(next as int)
                },
                None => !(close < chars.len() && chars[close] == '$'),
            }
        }),
{
    let mut close = at + 1;
    while name_char_at(chars, letters, close)
        invariant
            at < close <= chars.len(),
            at + 1 + name_len(chars@, letters@, at + 1) == close + name_len(
                chars@,
                letters@,
                close as int,
            ),
        decreases chars.len() - close,
    {
        close += 1;
    }
    if close < chars.len() && chars[close] == '$' {
        let (_, named) = split_chars(rest, 1);
        let (name, closed) = split_chars(named, close - at - 1);
        let (_, tail) = split_chars(closed, 1);
        assert(name@ =~= chars@.subrange(at + 1, close as int));
        assert(tail@ =~= chars@.skip(close + 1));
        Some((tail, TemplateNode::Variable(name), close + 1))
    } else {
        None
    }
}

/// Cuts `input`, whose characters are `chars`, into its tokens.
fn cut<'a>(input: &'a str, chars: &Vec<char>, letters: &Vec<bool>) -> (r: Option<
    Vec<TemplateNode<'a>>,
>)
    requires
        chars@ == input@,
    ensures
        match r {
            Some(nodes) => tokens_with(input@, letters@) == Some(tokens_of(nodes@)),
            None => tokens_with(input@, letters@) is None,
        },
{
    let mut nodes: Vec<TemplateNode<'a>> = Vec::new();
    let mut rest = input;
    let mut at: usize = 0;
    assert(tokens_of(nodes@) =~= Seq::empty());
    assert(chars@.skip(0) =~= chars@);
    while at < chars.len()
        invariant
            at <= chars.len(),
            chars@ == input@,
            rest@ == chars@.skip(at as int),
            tokens_with(input@, letters@) == match tokens_from(input@, letters@, at as int) {
                Some(coming) => Some(tokens_of(nodes@) + coming),
                None => None,
            },
        decreases chars.len() - at,
    {
        let ghost before = tokens_of(nodes@);
        let (tail, node, next) = if chars[at] == '$' {
            match parse_variable(rest, chars, letters, at) {
                Some(parsed) => parsed,
                None => {
                    return None;
                },
            }
        } else {
            proof {
                lemma_literal_len(input@, at as int);
            }
            parse_literal(rest, chars, at)
        };
        nodes.push(node);
        proof {
            let after = tokens_of(nodes@);
            assert(after =~= before + seq![node@]);
            assert forall|coming: Seq<Token>|
                before + (seq![node@] + coming) == #[trigger] (after + coming) by {
                assert(before + (seq![node@] + coming) =~= after + coming);
            }
        }
        rest = tail;
        at = next;
    }
    assert(tokens_of(nodes@) + Seq::<Token>::empty() =~= tokens_of(nodes@));
    Some(nodes)
}

/// Cuts `input` into its tokens, given for each of its characters whether it
/// is a letter or a digit; `None` where the template is malformed.
pub fn parse_template_with<'a>(input: &'a str, letters: &Vec<bool>) -> (r: Option<
    Vec<TemplateNode<'a>>,
>)
    ensures
        match r {
            Some(nodes) => tokens_with(input@, letters@) == Some(tokens_of(nodes@)),
            None => tokens_with(input@, letters@) is None,
        },
{
    let chars = chars_of(input);
    cut(input, &chars, letters)
}

/// Cuts `input` into its tokens; `None` where it is malformed.
pub fn parse_template<'a>(input: &'a str) -> (r: Option<Vec<TemplateNode<'a>>>)
    ensures
        match r {
            Some(nodes) => tokens(input@) == Some(tokens_of(nodes@)),
            None => tokens(input@) is None,
        },
{
    let chars = chars_of(input);
    let letters = classify(&chars);
    cut(input, &chars, &letters)
}

/// Puts the tokens together again, each variable replaced by its value in
/// `metadata`, or by its bare name where `metadata` has none, and each
/// escape by a `$`.
pub fn fill_template(nodes: &Vec<TemplateNode>, metadata: &Metadata) -> (out: String)
    ensures
        out@ == render_tokens(tokens_of(nodes@), metadata@),
{
    let mut out = String::new();
    let mut i: usize = 0;
    let ghost all = tokens_of(nodes@);
    while i < nodes.len()
        invariant
            i <= nodes.len(),
            all == tokens_of(nodes@),
            out@ == render_tokens(all.take(i as int), metadata@),
        decreases nodes.len() - i,
    {
        proof {
            assert(all.take(i + 1).drop_last() =~= all.take(i as int));
            assert(all.take(i + 1).last() == nodes@[i as int]@);
        }
        match &nodes[i] {
            TemplateNode::Literal(text) => {
                out.append(text);
            },
            TemplateNode::Variable(name) => {
                if name.is_empty() {
                    out.push('$');
                } else {
                    match metadata.get(name) {
                        Some(value) => {
                            out.append(value.as_str());
                        },
                        None => {
                            out.append(name);
                        },
                    }
                }
            },
        }
        i += 1;
    }
    assert(all.take(i as int) =~= all);
    out
}

/// Fills the template in from `metadata`: every `$name$` becomes the value
/// of `name`, or the bare name where `metadata` has none, and `$$` becomes
/// `$`. A malformed template comes back as it is.
pub fn apply_template(template: String, metadata: Metadata) -> (out: String)
    ensures
        out@ == interpolate(template@, metadata@),
        !template@.contains('$') ==> out@ == template@,
{
    proof {
        if !template@.contains('$') {
            lemma_plain_template_unchanged(template@, letters_of(template@), metadata@);
        }
    }
    match parse_template(template.as_str()) {
        Some(nodes) => fill_template(&nodes, &metadata),
        None => template,
    }
}

} // verus!

//! The closures of a Rust body: what they are called, and where their names
//! stand for them in labels.
use crate::digest::{short_digest, short_digest_text};
use crate::lists::views;
use crate::rust::items::{
    node_parts, token_parts, PatternShape, PatternShapeModel, RustClosure, RustClosureModel,
    RustDelimiter, RustExpr, RustExprModel, RustLocal, RustLocalModel, RustMacro, RustMacroModel,
    RustNode, RustNodeModel, RustPattern, RustPatternModel, RustShape, RustShapeModel, RustSpan,
    RustToken, RustTokenModel,
};
use crate::spans::{not_after, position_le};
use crate::text::{
    concat_texts, decimal, decimal_text, join_texts, joined, optional, replace_text, replaced,
    same_optional, same_text, texts,
};
use vstd::prelude::*;

verus! {

/// A closure of a body: where it stands among the closures, the name that it
/// is bound to, and what it is known by.
#[derive(Debug)]
pub struct ClosureSource {
    pub span: RustSpan,
    pub ordinal: usize,
    pub binding: Option<String>,
    pub identity: String,
}

#[verifier::ext_equal]
pub struct SourceModel {
    pub span: RustSpan,
    pub ordinal: usize,
    pub binding: Option<Seq<char>>,
    pub identity: Seq<char>,
}

impl View for ClosureSource {
    type V = SourceModel;

    open spec fn view(&self) -> SourceModel {
        SourceModel {
            span: self.span,
            ordinal: self.ordinal,
            binding: optional(self.binding),
            identity: self.identity@,
        }
    }
}

/// What a closure is called in labels: the name that it is bound to, or its
/// number.
pub open spec fn lambda_name(source: SourceModel) -> Seq<char> {
    match source.binding {
        Some(name) => "λ"@ + name,
        None => "λ#"@ + decimal((source.ordinal + 1) as nat),
    }
}

/// A closure that is not among those of a body.
pub open spec fn fallback_source(span: RustSpan, ordinal: usize) -> SourceModel {
    SourceModel {
        span,
        ordinal,
        binding: None,
        identity: "fallback-"@ + decimal(ordinal as nat),
    }
}

impl ClosureSource {
    /// A closure that is not among those of a body.
    pub fn anonymous(span: RustSpan, ordinal: usize) -> (result: Self)
        ensures
            result@ == fallback_source(span, ordinal),
    {
        ClosureSource {
            span,
            ordinal,
            binding: None,
            identity: concat_texts("fallback-", decimal_text(ordinal).as_str()),
        }
    }

    /// What the closure is called in labels.
    pub fn lambda_name(&self) -> (result: String)
        ensures
            result@ == lambda_name(self@),
    {
        match &self.binding {
            Some(name) => concat_texts("λ", name.as_str()),
            None => concat_texts(
                "λ#",
                crate::text::wide_decimal_text(self.ordinal as u128 + 1).as_str(),
            ),
        }
    }
}

/// The place from `index` on of the closure that stands at a span.
pub open spec fn source_place(sources: Seq<SourceModel>, span: RustSpan, index: int) -> Option<int>
    decreases sources.len() - index,
{
    if index < 0 || index >= sources.len() {
        None
    } else if sources[index].span == span {
        Some(index)
    } else {
        source_place(sources, span, index + 1)
    }
}

/// The closure that stands at a span.
pub open spec fn source_at(sources: Seq<SourceModel>, span: RustSpan) -> Option<SourceModel> {
    match source_place(sources, span, 0) {
        Some(place) => Some(sources[place]),
        None => None,
    }
}

/// The first closure from `index` on that is bound to a name.
pub open spec fn source_named(sources: Seq<SourceModel>, name: Seq<char>, index: int) -> Option<
    SourceModel,
>
    decreases sources.len() - index,
{
    if index < 0 || index >= sources.len() {
        None
    } else if sources[index].binding == Some(name) {
        Some(sources[index])
    } else {
        source_named(sources, name, index + 1)
    }
}

/// An optional closure of a body.
pub open spec fn optional_source(source: Option<&ClosureSource>) -> Option<SourceModel> {
    match source {
        Some(source) => Some(source@),
        None => None,
    }
}

fn find_source_place(sources: &Vec<ClosureSource>, span: RustSpan) -> (result: Option<usize>)
    ensures
        match result {
            Some(place) => place < sources@.len() && source_place(views(sources@), span, 0)
                == Some(place as int),
            None => source_place(views(sources@), span, 0) is None,
        },
{
    let mut index: usize = 0;
    while index < sources.len()
        invariant
            index <= sources@.len(),
            source_place(views(sources@), span, index as int) == source_place(
                views(sources@),
                span,
                0,
            ),
        decreases sources@.len() - index,
    {
        proof {
            assert(views(sources@)[index as int] == sources@[index as int]@);
        }
        if sources[index].span == span {
            return Some(index);
        }
        index += 1;
    }
    None
}

/// Finds the closure that stands at a span.
pub fn find_source<'a>(sources: &'a Vec<ClosureSource>, span: RustSpan) -> (result: Option<
    &'a ClosureSource,
>)
    ensures
        optional_source(result) == source_at(views(sources@), span),
{
    match find_source_place(sources, span) {
        Some(place) => {
            proof {
                assert(views(sources@)[place as int] == sources@[place as int]@);
            }
            Some(&sources[place])
        },
        None => None,
    }
}

fn find_source_named<'a>(sources: &'a Vec<ClosureSource>, name: &str) -> (result: Option<
    &'a ClosureSource,
>)
    ensures
        optional_source(result) == source_named(views(sources@), name@, 0),
{
    let mut index: usize = 0;
    while index < sources.len()
        invariant
            index <= sources@.len(),
            source_named(views(sources@), name@, index as int) == source_named(
                views(sources@),
                name@,
                0,
            ),
        decreases sources@.len() - index,
    {
        proof {
            assert(views(sources@)[index as int] == sources@[index as int]@);
        }
        if let Some(binding) = &sources[index].binding {
            if same_text(binding.as_str(), name) {
                return Some(&sources[index]);
            }
        }
        index += 1;
    }
    None
}

/// A token as it is written out.
#[derive(Debug)]
pub enum CompactToken {
    Word(String),
    Punct(char),
    Group(RustDelimiter, String),
}

pub enum CompactModel {
    Word(Seq<char>),
    Punct(char),
    Group(RustDelimiter, Seq<char>),
}

impl View for CompactToken {
    type V = CompactModel;

    open spec fn view(&self) -> CompactModel {
        match self {
            CompactToken::Word(word) => CompactModel::Word(word@),
            CompactToken::Punct(character) => CompactModel::Punct(*character),
            CompactToken::Group(delimiter, body) => CompactModel::Group(*delimiter, body@),
        }
    }
}

/// Whether a space stands between two tokens.
pub open spec fn needs_space(previous: CompactModel, current: CompactModel) -> bool {
    match (previous, current) {
        (CompactModel::Word(_), CompactModel::Word(_)) => true,
        (CompactModel::Group(_, _), CompactModel::Word(_)) => true,
        (CompactModel::Punct(mark), CompactModel::Word(_)) => mark == ',' || mark == ';',
        (CompactModel::Word(word), CompactModel::Punct(mark)) => mark == '|' && (word == "move"@
            || word == "async"@),
        (CompactModel::Word(_), CompactModel::Group(delimiter, _)) => delimiter
            == RustDelimiter::Brace,
        _ => false,
    }
}

/// Whether a space stands between two tokens.
pub fn compact_tokens_need_space(previous: &CompactToken, current: &CompactToken) -> (result: bool)
    ensures
        result == needs_space(previous@, current@),
{
    match (previous, current) {
        (CompactToken::Word(_), CompactToken::Word(_)) => true,
        (CompactToken::Group(_, _), CompactToken::Word(_)) => true,
        (CompactToken::Punct(mark), CompactToken::Word(_)) => *mark == ',' || *mark == ';',
        (CompactToken::Word(word), CompactToken::Punct(mark)) => *mark == '|' && (same_text(
            word.as_str(),
            "move",
        ) || same_text(word.as_str(), "async")),
        (CompactToken::Word(_), CompactToken::Group(delimiter, _)) => *delimiter
            == RustDelimiter::Brace,
        _ => false,
    }
}

/// What opens a group.
pub open spec fn opening(delimiter: RustDelimiter) -> Seq<char> {
    match delimiter {
        RustDelimiter::Parenthesis => "("@,
        RustDelimiter::Brace => "{"@,
        RustDelimiter::Bracket => "["@,
        RustDelimiter::Hidden => ""@,
    }
}

/// What closes a group.
pub open spec fn closing(delimiter: RustDelimiter) -> Seq<char> {
    match delimiter {
        RustDelimiter::Parenthesis => ")"@,
        RustDelimiter::Brace => "}"@,
        RustDelimiter::Bracket => "]"@,
        RustDelimiter::Hidden => ""@,
    }
}

/// A token as text.
pub open spec fn token_text(token: CompactModel) -> Seq<char> {
    match token {
        CompactModel::Word(word) => word,
        CompactModel::Punct(mark) => seq![mark],
        CompactModel::Group(delimiter, body) => opening(delimiter) + body + closing(delimiter),
    }
}

/// The first `count` tokens as text.
pub open spec fn written(tokens: Seq<CompactModel>, count: int) -> Seq<char>
    decreases count,
{
    if count <= 0 {
        ""@
    } else {
        let space = if count > 1 && needs_space(tokens[count - 2], tokens[count - 1]) {
            " "@
        } else {
            ""@
        };
        written(tokens, count - 1) + space + token_text(tokens[count - 1])
    }
}

/// What stands for a closure in an expression that is to be written out.
pub open spec fn placeholder(source: SourceModel) -> Seq<char> {
    "__diffkit_closure_placeholder_"@ + decimal(source.ordinal as nat)
}

/// Where a token stands.
pub open spec fn token_span(token: RustTokenModel) -> RustSpan {
    match token {
        RustTokenModel::Word(span, _) => span,
        RustTokenModel::Punct(span, _) => span,
        RustTokenModel::Group(span, _, _) => span,
    }
}

/// Whether a stretch lies in another.
pub open spec fn lies_within(inner: RustSpan, outer: RustSpan) -> bool {
    not_after(outer.start_line, outer.start_column, inner.start_line, inner.start_column)
        && not_after(inner.end_line, inner.end_column, outer.end_line, outer.end_column)
}

/// The first closure from `index` on that a stretch lies in. A closure comes
/// before those that stand in it, so this is the outermost.
pub open spec fn closure_around(span: RustSpan, closures: Seq<RustSpan>, index: int) -> Option<RustSpan>
    decreases closures.len() - index,
{
    if index < 0 || index >= closures.len() {
        None
    } else if lies_within(span, closures[index]) {
        Some(closures[index])
    } else {
        closure_around(span, closures, index + 1)
    }
}

/// The closure that a name stands for where a token stands: the outermost
/// around it, where that is among the sources.
pub open spec fn named_around(
    token: RustTokenModel,
    closures: Seq<RustSpan>,
    sources: Seq<SourceModel>,
) -> Option<SourceModel> {
    match closure_around(token_span(token), closures, 0) {
        Some(closure) => source_at(sources, closure),
        None => None,
    }
}

/// Whether the token at `index` is the first of its list that a closure is
/// named in place of.
pub open spec fn begins_closure(
    tokens: Seq<RustTokenModel>,
    closures: Seq<RustSpan>,
    sources: Seq<SourceModel>,
    index: int,
) -> bool {
    index == 0 || named_around(tokens[index - 1], closures, sources) != named_around(
        tokens[index],
        closures,
        sources,
    )
}

/// The first `count` tokens as they are written out. A placeholder stands for
/// each closure that is among the sources.
pub open spec fn compacted(
    tokens: Seq<RustTokenModel>,
    closures: Seq<RustSpan>,
    sources: Seq<SourceModel>,
    count: nat,
) -> Seq<CompactModel>
    decreases tokens, count,
{
    if count == 0 || count > tokens.len() {
        Seq::empty()
    } else {
        let token = tokens[count - 1];
        compacted(tokens, closures, sources, (count - 1) as nat) + match named_around(
            token,
            closures,
            sources,
        ) {
            Some(source) => if begins_closure(tokens, closures, sources, count - 1) {
                seq![CompactModel::Word(placeholder(source))]
            } else {
                Seq::empty()
            },
            None => compacted_token(token, closures, sources),
        }
    }
}

/// A token as it is written out.
pub open spec fn compacted_token(
    token: RustTokenModel,
    closures: Seq<RustSpan>,
    sources: Seq<SourceModel>,
) -> Seq<CompactModel>
    decreases token, 0nat,
{
    match token {
        RustTokenModel::Word(_, word) => seq![CompactModel::Word(word)],
        RustTokenModel::Punct(_, mark) => seq![CompactModel::Punct(mark)],
        RustTokenModel::Group(_, delimiter, inner) => {
            let body = compacted(inner, closures, sources, inner.len());
            seq![CompactModel::Group(delimiter, written(body, body.len() as int))]
        },
    }
}

/// Tokens as text, with the least space.
pub open spec fn compact(tokens: Seq<RustTokenModel>) -> Seq<char> {
    let list = compacted(tokens, Seq::empty(), Seq::empty(), tokens.len());
    written(list, list.len() as int)
}

/// The placeholders among the first `count` tokens, each with the name of its
/// closure.
pub open spec fn placeholders(
    tokens: Seq<RustTokenModel>,
    closures: Seq<RustSpan>,
    sources: Seq<SourceModel>,
    count: nat,
) -> Seq<(Seq<char>, Seq<char>)>
    decreases tokens, count,
{
    if count == 0 || count > tokens.len() {
        Seq::empty()
    } else {
        let token = tokens[count - 1];
        placeholders(tokens, closures, sources, (count - 1) as nat) + match named_around(
            token,
            closures,
            sources,
        ) {
            Some(source) => if begins_closure(tokens, closures, sources, count - 1) {
                seq![(placeholder(source), lambda_name(source))]
            } else {
                Seq::empty()
            },
            None => token_placeholders(token, closures, sources),
        }
    }
}

/// The placeholders in a token.
pub open spec fn token_placeholders(
    token: RustTokenModel,
    closures: Seq<RustSpan>,
    sources: Seq<SourceModel>,
) -> Seq<(Seq<char>, Seq<char>)>
    decreases token, 0nat,
{
    match token {
        RustTokenModel::Group(_, _, inner) => placeholders(inner, closures, sources, inner.len()),
        _ => Seq::empty(),
    }
}

/// A text with the names of closures in place of the first `count`
/// placeholders.
pub open spec fn with_lambdas(
    text: Seq<char>,
    marks: Seq<(Seq<char>, Seq<char>)>,
    count: int,
) -> Seq<char>
    decreases count,
{
    if count <= 0 {
        text
    } else {
        replaced(with_lambdas(text, marks, count - 1), marks[count - 1].0, marks[count - 1].1)
    }
}

/// An expression as text, with names in place of its closures.
pub open spec fn compact_expression(expression: RustExprModel, sources: Seq<SourceModel>) -> Seq<char> {
    let tokens = expression.tokens;
    let closures = expression.closures;
    let list = compacted(tokens, closures, sources, tokens.len());
    let marks = placeholders(tokens, closures, sources, tokens.len());
    with_lambdas(written(list, list.len() as int), marks, marks.len() as int)
}

fn write_token(rendered: &mut String, token: &CompactToken)
    ensures
        final(rendered)@ == old(rendered)@ + token_text(token@),
{
    let ghost start = rendered@;
    match token {
        CompactToken::Word(word) => rendered.append(word.as_str()),
        CompactToken::Punct(mark) => {
            rendered.push(*mark);
            proof {
                assert(rendered@ =~= start + seq![*mark]);
            }
        },
        CompactToken::Group(delimiter, body) => {
            let (open, close) = match delimiter {
                RustDelimiter::Parenthesis => ("(", ")"),
                RustDelimiter::Brace => ("{", "}"),
                RustDelimiter::Bracket => ("[", "]"),
                RustDelimiter::Hidden => ("", ""),
            };
            rendered.append(open);
            rendered.append(body.as_str());
            rendered.append(close);
            proof {
                assert(rendered@ =~= start + (opening(*delimiter) + body@ + closing(*delimiter)));
            }
        },
    }
}

fn write_tokens(tokens: &Vec<CompactToken>) -> (result: String)
    ensures
        result@ == written(views(tokens@), tokens@.len() as int),
{
    let mut rendered = "".to_owned();
    let mut index: usize = 0;
    while index < tokens.len()
        invariant
            index <= tokens@.len(),
            rendered@ == written(views(tokens@), index as int),
        decreases tokens@.len() - index,
    {
        let ghost before = rendered@;
        proof {
            assert(views(tokens@)[index as int] == tokens@[index as int]@);
            if index > 0 {
                assert(views(tokens@)[index - 1] == tokens@[index - 1]@);
            }
        }
        if index > 0 && compact_tokens_need_space(&tokens[index - 1], &tokens[index]) {
            rendered.append(" ");
        } else {
            proof {
                reveal_strlit("");
                assert(before + ""@ =~= before);
            }
        }
        write_token(&mut rendered, &tokens[index]);
        index += 1;
    }
    rendered
}

fn find_closure_around(span: RustSpan, closures: &Vec<RustSpan>) -> (result: Option<RustSpan>)
    ensures
        result == closure_around(span, closures@, 0),
{
    let mut index: usize = 0;
    while index < closures.len()
        invariant
            index <= closures@.len(),
            closure_around(span, closures@, index as int) == closure_around(span, closures@, 0),
        decreases closures@.len() - index,
    {
        let outer = closures[index];
        if position_le(outer.start_line, outer.start_column, span.start_line, span.start_column)
            && position_le(span.end_line, span.end_column, outer.end_line, outer.end_column) {
            return Some(outer);
        }
        index += 1;
    }
    None
}

fn find_named_around<'a>(
    token: &RustToken,
    closures: &Vec<RustSpan>,
    sources: &'a Vec<ClosureSource>,
) -> (result: Option<&'a ClosureSource>)
    ensures
        optional_source(result) == named_around(token@, closures@, views(sources@)),
{
    proof {
        token_parts(*token);
    }
    let span = match token {
        RustToken::Word(span, _) => *span,
        RustToken::Punct(span, _) => *span,
        RustToken::Group(span, _, _) => *span,
    };
    match find_closure_around(span, closures) {
        Some(closure) => find_source(sources, closure),
        None => None,
    }
}

fn same_source(left: Option<&ClosureSource>, right: &ClosureSource) -> (result: bool)
    ensures
        result == (optional_source(left) == Some(right@)),
{
    match left {
        Some(left) => left.span == right.span && left.ordinal == right.ordinal && same_text(
            left.identity.as_str(),
            right.identity.as_str(),
        ) && same_optional(&left.binding, &right.binding),
        None => false,
    }
}

fn check_begins(
    tokens: &Vec<RustToken>,
    closures: &Vec<RustSpan>,
    sources: &Vec<ClosureSource>,
    index: usize,
    source: &ClosureSource,
) -> (result: bool)
    requires
        index < tokens@.len(),
        named_around(tokens@[index as int]@, closures@, views(sources@)) == Some(source@),
    ensures
        result == begins_closure(views(tokens@), closures@, views(sources@), index as int),
{
    proof {
        assert(views(tokens@)[index as int] == tokens@[index as int]@);
        if index > 0 {
            assert(views(tokens@)[index - 1] == tokens@[index - 1]@);
        }
    }
    index == 0 || !same_source(find_named_around(&tokens[index - 1], closures, sources), source)
}

fn push_compacted(
    tokens: &Vec<RustToken>,
    closures: &Vec<RustSpan>,
    sources: &Vec<ClosureSource>,
    list: &mut Vec<CompactToken>,
)
    ensures
        views(final(list)@) == views(old(list)@) + compacted(
            views(tokens@),
            closures@,
            views(sources@),
            tokens@.len(),
        ),
    decreases tokens,
{
    let ghost start = views(list@);
    let ghost model = views(sources@);
    let ghost all = views(tokens@);
    let mut index: usize = 0;
    proof {
        assert(start + compacted(all, closures@, model, 0) =~= start);
    }
    while index < tokens.len()
        invariant
            index <= tokens@.len(),
            model == views(sources@),
            all == views(tokens@),
            views(list@) == start + compacted(all, closures@, model, index as nat),
        decreases tokens@.len() - index,
    {
        let token = &tokens[index];
        let ghost before = views(list@);
        let ghost lower = compacted(all, closures@, model, index as nat);
        let ghost next = match named_around(token@, closures@, model) {
            Some(source) => if begins_closure(all, closures@, model, index as int) {
                seq![CompactModel::Word(placeholder(source))]
            } else {
                Seq::empty()
            },
            None => compacted_token(token@, closures@, model),
        };
        assert(decreases_to!(tokens => token));
        proof {
            assert(all[index as int] == token@);
            token_parts(*token);
        }
        match find_named_around(token, closures, sources) {
            Some(source) => {
                if check_begins(tokens, closures, sources, index, source) {
                    list.push(CompactToken::Word(make_placeholder(source)));
                }
            },
            None => match token {
                RustToken::Word(_, word) => {
                    list.push(CompactToken::Word(word.clone()));
                },
                RustToken::Punct(_, mark) => {
                    list.push(CompactToken::Punct(*mark));
                },
                RustToken::Group(_, delimiter, inner) => {
                    let mut body: Vec<CompactToken> = Vec::new();
                    push_compacted(inner, closures, sources, &mut body);
                    proof {
                        assert(views(body@) =~= compacted(
                            views(inner@),
                            closures@,
                            model,
                            inner@.len(),
                        ));
                        assert(views(body@).len() == body@.len());
                    }
                    list.push(CompactToken::Group(*delimiter, write_tokens(&body)));
                },
            },
        }
        proof {
            assert(views(list@) =~= before + next);
            assert(compacted(all, closures@, model, (index + 1) as nat) == lower + next);
            assert(start + lower + next =~= start + (lower + next));
        }
        index += 1;
    }
}

fn make_placeholder(source: &ClosureSource) -> (result: String)
    ensures
        result@ == placeholder(source@),
{
    concat_texts("__diffkit_closure_placeholder_", decimal_text(source.ordinal).as_str())
}

/// Tokens as text, with the least space.
pub fn compact_tokens(tokens: &Vec<RustToken>) -> (result: String)
    ensures
        result@ == compact(views(tokens@)),
{
    let closures: Vec<RustSpan> = Vec::new();
    let sources: Vec<ClosureSource> = Vec::new();
    let mut list: Vec<CompactToken> = Vec::new();
    push_compacted(tokens, &closures, &sources, &mut list);
    proof {
        assert(closures@ =~= Seq::empty());
        assert(views(sources@) =~= Seq::empty());
        assert(views(list@) =~= compacted(
            views(tokens@),
            Seq::empty(),
            Seq::empty(),
            tokens@.len(),
        ));
        assert(views(list@).len() == list@.len());
    }
    write_tokens(&list)
}

/// A placeholder and the name of its closure.
#[derive(Debug)]
pub struct Placeholder {
    pub mark: String,
    pub lambda: String,
}

impl View for Placeholder {
    type V = (Seq<char>, Seq<char>);

    open spec fn view(&self) -> (Seq<char>, Seq<char>) {
        (self.mark@, self.lambda@)
    }
}

fn push_placeholders(
    tokens: &Vec<RustToken>,
    closures: &Vec<RustSpan>,
    sources: &Vec<ClosureSource>,
    marks: &mut Vec<Placeholder>,
)
    requires
        forall|k: int| 0 <= k < old(marks)@.len() ==> (#[trigger] old(marks)@[k]).mark@.len() > 0,
    ensures
        views(final(marks)@) == views(old(marks)@) + placeholders(
            views(tokens@),
            closures@,
            views(sources@),
            tokens@.len(),
        ),
        forall|k: int| 0 <= k < final(marks)@.len() ==> (#[trigger] final(marks)@[k]).mark@.len() > 0,
    decreases tokens,
{
    let ghost start = views(marks@);
    let ghost model = views(sources@);
    let ghost all = views(tokens@);
    let mut index: usize = 0;
    proof {
        reveal_strlit("__diffkit_closure_placeholder_");
        assert(start + placeholders(all, closures@, model, 0) =~= start);
    }
    while index < tokens.len()
        invariant
            index <= tokens@.len(),
            model == views(sources@),
            all == views(tokens@),
            "__diffkit_closure_placeholder_"@.len() > 0,
            views(marks@) == start + placeholders(all, closures@, model, index as nat),
            forall|k: int| 0 <= k < marks@.len() ==> (#[trigger] marks@[k]).mark@.len() > 0,
        decreases tokens@.len() - index,
    {
        let token = &tokens[index];
        let ghost before = views(marks@);
        let ghost lower = placeholders(all, closures@, model, index as nat);
        let ghost next = match named_around(token@, closures@, model) {
            Some(source) => if begins_closure(all, closures@, model, index as int) {
                seq![(placeholder(source), lambda_name(source))]
            } else {
                Seq::empty()
            },
            None => token_placeholders(token@, closures@, model),
        };
        assert(decreases_to!(tokens => token));
        proof {
            assert(all[index as int] == token@);
            token_parts(*token);
        }
        match find_named_around(token, closures, sources) {
            Some(source) => {
                if check_begins(tokens, closures, sources, index, source) {
                    marks.push(
                        Placeholder {
                            mark: make_placeholder(source),
                            lambda: source.lambda_name(),
                        },
                    );
                }
            },
            None => {
                if let RustToken::Group(_, _, inner) = token {
                    push_placeholders(inner, closures, sources, marks);
                }
            },
        }
        proof {
            assert(views(marks@) =~= before + next);
            assert(placeholders(all, closures@, model, (index + 1) as nat) == lower + next);
            assert(start + lower + next =~= start + (lower + next));
        }
        index += 1;
    }
}

/// Writes an expression out, with names in place of its closures.
pub fn write_expression(expression: &RustExpr, sources: &Vec<ClosureSource>) -> (result: String)
    ensures
        result@ == compact_expression(expression@, views(sources@)),
{
    let ghost tokens = views(expression.tokens@);
    let ghost closures = expression.closures@;
    let mut list: Vec<CompactToken> = Vec::new();
    push_compacted(&expression.tokens, &expression.closures, sources, &mut list);
    let mut marks: Vec<Placeholder> = Vec::new();
    push_placeholders(&expression.tokens, &expression.closures, sources, &mut marks);
    proof {
        assert(views(list@) =~= compacted(tokens, closures, views(sources@), tokens.len()));
        assert(views(list@).len() == list@.len());
        assert(views(marks@) =~= placeholders(tokens, closures, views(sources@), tokens.len()));
        assert(views(marks@).len() == marks@.len());
    }
    let mut rendered = write_tokens(&list);
    let ghost text = rendered@;
    let mut index: usize = 0;
    while index < marks.len()
        invariant
            index <= marks@.len(),
            rendered@ == with_lambdas(text, views(marks@), index as int),
            forall|k: int| 0 <= k < marks@.len() ==> (#[trigger] marks@[k]).mark@.len() > 0,
        decreases marks@.len() - index,
    {
        proof {
            assert(views(marks@)[index as int] == marks@[index as int]@);
        }
        rendered = replace_text(
            rendered.as_str(),
            marks[index].mark.as_str(),
            marks[index].lambda.as_str(),
        );
        index += 1;
    }
    rendered
}

/// Where the closure stands that an expression is.
pub open spec fn direct_closure(shape: RustShapeModel) -> Option<RustSpan>
    decreases shape,
{
    match shape {
        RustShapeModel::Closure(span) => Some(span),
        RustShapeModel::Group(inner) => direct_closure(*inner),
        RustShapeModel::Paren(inner) => direct_closure(*inner),
        _ => None,
    }
}

/// Where the closure stands that an expression is.
pub fn direct_closure_expression(shape: &RustShape) -> (result: Option<RustSpan>)
    ensures
        result == direct_closure(shape@),
    decreases shape,
{
    match shape {
        RustShape::Closure(span) => Some(*span),
        RustShape::Group(inner) => direct_closure_expression(inner),
        RustShape::Paren(inner) => direct_closure_expression(inner),
        _ => None,
    }
}

/// The closure that an expression is, or names.
pub open spec fn expression_source(expression: RustExprModel, sources: Seq<SourceModel>) -> Option<
    SourceModel,
> {
    match direct_closure(expression.shape) {
        Some(span) => source_at(sources, span),
        None => match expression.shape {
            RustShapeModel::Path(_, Some(name)) => source_named(sources, name, 0),
            _ => None,
        },
    }
}

/// Finds the closure that an expression is, or names.
pub fn closure_source_for_expression<'a>(
    expression: &RustExpr,
    sources: &'a Vec<ClosureSource>,
) -> (result: Option<&'a ClosureSource>)
    ensures
        optional_source(result) == expression_source(expression@, views(sources@)),
{
    match direct_closure_expression(&expression.shape) {
        Some(span) => find_source(sources, span),
        None => match &expression.shape {
            RustShape::Path(_, Some(name)) => find_source_named(sources, name.as_str()),
            _ => None,
        },
    }
}

/// The name that a pattern binds.
pub open spec fn simple_binding(pattern: RustPatternModel) -> Option<Seq<char>>
    decreases pattern,
{
    match pattern.shape {
        PatternShapeModel::Ident(name) => Some(name),
        PatternShapeModel::Typed(inner, _) => simple_binding(*inner),
        _ => None,
    }
}

/// The name that a pattern binds.
pub fn simple_pattern_binding(pattern: &RustPattern) -> (result: Option<String>)
    ensures
        optional(result) == simple_binding(pattern@),
    decreases pattern,
{
    match &pattern.shape {
        PatternShape::Ident(name) => Some(name.clone()),
        PatternShape::Typed(inner, _) => simple_pattern_binding(inner),
        _ => None,
    }
}

/// Each list of tokens as text.
pub open spec fn compact_patterns(patterns: Seq<RustPatternModel>) -> Seq<Seq<char>> {
    patterns.map_values(|pattern: RustPatternModel| compact(pattern.tokens))
}

/// A truth value as text.
pub open spec fn truth_text(value: bool) -> Seq<char> {
    if value {
        "true"@
    } else {
        "false"@
    }
}

/// What a closure is known by: a digest of how it begins.
pub open spec fn structural_identity(closure: RustClosureModel) -> Seq<char> {
    short_digest(
        truth_text(closure.is_async) + ":"@ + truth_text(closure.is_static) + ":"@ + truth_text(
            closure.is_move,
        ) + ":"@ + joined(compact_patterns(closure.inputs), ","@),
    )
}

fn append_truth(text: &mut String, value: bool)
    ensures
        final(text)@ == old(text)@ + truth_text(value),
{
    if value {
        text.append("true");
    } else {
        text.append("false");
    }
}

/// What a closure is known by.
pub fn closure_structural_identity(closure: &RustClosure) -> (result: String)
    ensures
        result@ == structural_identity(closure@),
        result@.len() == 12,
{
    let mut inputs: Vec<String> = Vec::new();
    let mut index: usize = 0;
    while index < closure.inputs.len()
        invariant
            index <= closure.inputs@.len(),
            inputs@.len() == index,
            forall|k: int|
                0 <= k < index ==> (#[trigger] inputs@[k])@ == compact_patterns(
                    views(closure.inputs@),
                )[k],
        decreases closure.inputs@.len() - index,
    {
        proof {
            assert(views(closure.inputs@)[index as int] == closure.inputs@[index as int]@);
        }
        inputs.push(compact_tokens(&closure.inputs[index].tokens));
        index += 1;
    }
    proof {
        assert(texts(inputs@) =~= compact_patterns(views(closure.inputs@)));
    }
    let mut text = "".to_owned();
    append_truth(&mut text, closure.is_async);
    proof {
        reveal_strlit("");
        assert(text@ =~= truth_text(closure.is_async));
    }
    text.append(":");
    append_truth(&mut text, closure.is_static);
    text.append(":");
    append_truth(&mut text, closure.is_move);
    text.append(":");
    text.append(join_texts(&inputs, ",").as_str());
    short_digest_text(text.as_str())
}

/// A closure that a name is bound to.
#[derive(Debug)]
pub struct BoundClosure {
    pub span: RustSpan,
    pub name: String,
}

impl View for BoundClosure {
    type V = (RustSpan, Seq<char>);

    open spec fn view(&self) -> (RustSpan, Seq<char>) {
        (self.span, self.name@)
    }
}

/// What is known of the closures of a body: the closures, the names that are
/// bound, and what the closures were known by before they were told apart.
#[derive(Debug)]
pub struct ClosureTable {
    pub sources: Vec<ClosureSource>,
    pub bindings: Vec<BoundClosure>,
    pub identities: Vec<String>,
}

#[verifier::ext_equal]
pub struct ClosureTableModel {
    pub sources: Seq<SourceModel>,
    pub bindings: Seq<(RustSpan, Seq<char>)>,
    pub identities: Seq<Seq<char>>,
}

impl View for ClosureTable {
    type V = ClosureTableModel;

    open spec fn view(&self) -> ClosureTableModel {
        ClosureTableModel {
            sources: views(self.sources@),
            bindings: views(self.bindings@),
            identities: texts(self.identities@),
        }
    }
}

/// The last of the first `count` names that are bound to a closure.
pub open spec fn binding_of(bindings: Seq<(RustSpan, Seq<char>)>, span: RustSpan, count: int) -> Option<
    Seq<char>,
>
    decreases count,
{
    if count <= 0 {
        None
    } else if bindings[count - 1].0 == span {
        Some(bindings[count - 1].1)
    } else {
        binding_of(bindings, span, count - 1)
    }
}

fn find_binding(bindings: &Vec<BoundClosure>, span: RustSpan) -> (result: Option<String>)
    ensures
        optional(result) == binding_of(views(bindings@), span, bindings@.len() as int),
{
    let mut count: usize = bindings.len();
    while count > 0
        invariant
            count <= bindings@.len(),
            binding_of(views(bindings@), span, count as int) == binding_of(
                views(bindings@),
                span,
                bindings@.len() as int,
            ),
        decreases count,
    {
        proof {
            assert(views(bindings@)[count - 1] == bindings@[count - 1]@);
        }
        if bindings[count - 1].span == span {
            return Some(bindings[count - 1].name.clone());
        }
        count -= 1;
    }
    None
}

/// How many of the first `count` texts are one text.
pub open spec fn occurrences(values: Seq<Seq<char>>, value: Seq<char>, count: int) -> nat
    decreases count,
{
    if count <= 0 {
        0
    } else if values[count - 1] == value {
        occurrences(values, value, count - 1) + 1
    } else {
        occurrences(values, value, count - 1)
    }
}

fn count_occurrences(values: &Vec<String>, value: &str) -> (result: usize)
    ensures
        result == occurrences(texts(values@), value@, values@.len() as int),
{
    let mut found: usize = 0;
    let mut index: usize = 0;
    while index < values.len()
        invariant
            index <= values@.len(),
            found <= index,
            found == occurrences(texts(values@), value@, index as int),
        decreases values@.len() - index,
    {
        proof {
            assert(texts(values@)[index as int] == values@[index as int]@);
        }
        if same_text(values[index].as_str(), value) {
            found += 1;
        }
        index += 1;
    }
    found
}

/// The closures with one more, in place of the one that stood at its span.
pub open spec fn with_source(sources: Seq<SourceModel>, source: SourceModel) -> Seq<SourceModel> {
    match source_place(sources, source.span, 0) {
        Some(place) => sources.update(place, source),
        None => sources.push(source),
    }
}

/// What is known behind a closure. Closures that begin alike are told apart by
/// a number.
pub open spec fn behind_closure(table: ClosureTableModel, closure: RustClosureModel) -> ClosureTableModel {
    let base = structural_identity(closure);
    let earlier = occurrences(table.identities, base, table.identities.len() as int);
    let identity = if earlier == 0 {
        base
    } else {
        base + "-"@ + decimal(earlier + 1)
    };
    let source = SourceModel {
        span: closure.span,
        ordinal: table.sources.len() as usize,
        binding: binding_of(table.bindings, closure.span, table.bindings.len() as int),
        identity,
    };
    ClosureTableModel {
        sources: with_source(table.sources, source),
        identities: table.identities.push(base),
        ..table
    }
}

/// What is known behind the head of a `let`.
pub open spec fn behind_local(table: ClosureTableModel, local: RustLocalModel) -> ClosureTableModel {
    match (local.value, simple_binding(local.pattern)) {
        (Some(value), Some(name)) => match direct_closure(value) {
            Some(span) => ClosureTableModel { bindings: table.bindings.push((span, name)), ..table },
            None => table,
        },
        _ => table,
    }
}

/// Whether the arguments of a macro are evaluated.
pub open spec fn is_evaluated(name: Seq<char>) -> bool {
    ||| name == "assert"@
    ||| name == "assert_eq"@
    ||| name == "assert_ne"@
    ||| name == "debug_assert"@
    ||| name == "debug_assert_eq"@
    ||| name == "debug_assert_ne"@
    ||| name == "dbg"@
    ||| name == "eprint"@
    ||| name == "eprintln"@
    ||| name == "format"@
    ||| name == "format_args"@
    ||| name == "panic"@
    ||| name == "print"@
    ||| name == "println"@
    ||| name == "vec"@
    ||| name == "write"@
    ||| name == "writeln"@
}

fn check_evaluated(name: &str) -> (result: bool)
    ensures
        result == is_evaluated(name@),
{
    same_text(name, "assert") || same_text(name, "assert_eq") || same_text(name, "assert_ne")
        || same_text(name, "debug_assert") || same_text(name, "debug_assert_eq") || same_text(
        name,
        "debug_assert_ne",
    ) || same_text(name, "dbg") || same_text(name, "eprint") || same_text(name, "eprintln")
        || same_text(name, "format") || same_text(name, "format_args") || same_text(name, "panic")
        || same_text(name, "print") || same_text(name, "println") || same_text(name, "vec")
        || same_text(name, "write") || same_text(name, "writeln")
}

/// Whether the expressions of a macro are part of the body.
pub open spec fn macro_counts(node: RustMacroModel) -> bool {
    node.path.len() > 0 && is_evaluated(node.path.last())
}

/// The expressions of a macro that are part of the body.
pub fn evaluated_macro_expressions(node: &RustMacro) -> (result: Option<&Vec<RustNode>>)
    ensures
        match result {
            Some(nodes) => macro_counts(node@) && node.expressions == Some(*nodes),
            None => !macro_counts(node@) || node.expressions is None,
        },
{
    proof {
        assert(node@.path.len() == node.path@.len());
        if node.path@.len() > 0 {
            assert(node@.path.last() == node.path@.last()@);
        }
    }
    if node.path.len() == 0 || !check_evaluated(node.path[node.path.len() - 1].as_str()) {
        return None;
    }
    match &node.expressions {
        Some(nodes) => Some(nodes),
        None => None,
    }
}

/// What is known of closures behind the first `count` nodes of a body.
pub open spec fn table_behind(nodes: Seq<RustNodeModel>, table: ClosureTableModel, count: nat) -> ClosureTableModel
    decreases nodes, count,
{
    if count == 0 || count > nodes.len() {
        table
    } else {
        table_behind_node(nodes[count - 1], table_behind(nodes, table, (count - 1) as nat))
    }
}

/// What is known of closures behind a node of a body.
pub open spec fn table_behind_node(node: RustNodeModel, table: ClosureTableModel) -> ClosureTableModel
    decreases node, 0nat,
{
    match node {
        RustNodeModel::Call(call) => table_behind(call.inner, table, call.inner.len()),
        RustNodeModel::Method(call) => table_behind(call.inner, table, call.inner.len()),
        RustNodeModel::Closure(closure) => table_behind(
            closure.body,
            table_behind(closure.head, behind_closure(table, closure), closure.head.len()),
            closure.body.len(),
        ),
        RustNodeModel::Local(local) => table_behind(
            local.inner,
            behind_local(table, local),
            local.inner.len(),
        ),
        RustNodeModel::Macro(node) => match node.expressions {
            Some(nodes) => if macro_counts(node) {
                table_behind(nodes, table, nodes.len())
            } else {
                table
            },
            None => table,
        },
        RustNodeModel::Function(_) => table,
    }
}

/// What the closure with a number is known by, of those that begin alike.
pub open spec fn numbered_identity(base: Seq<char>, number: nat) -> Seq<char> {
    if number <= 1 {
        base
    } else {
        base + "-"@ + decimal(number)
    }
}

/// Whether an identity is that of one of the closures that were met.
pub open spec fn is_given(
    identities: Seq<Seq<char>>,
    identity: Seq<char>,
    base: Seq<char>,
    number: nat,
) -> bool {
    &&& base.len() == 12
    &&& 1 <= number <= occurrences(identities, base, identities.len() as int)
    &&& identity == numbered_identity(base, number)
}

/// Whether no two closures are known by the same identity, and each by one
/// that was given to it.
pub open spec fn told_apart(table: ClosureTableModel) -> bool {
    &&& forall|i: int, j: int|
        0 <= i < j < table.sources.len() ==> (#[trigger] table.sources[i]).identity != (
        #[trigger] table.sources[j]).identity
    &&& forall|k: int|
        0 <= k < table.sources.len() ==> exists|base: Seq<char>, number: nat|
            is_given(table.identities, (#[trigger] table.sources[k]).identity, base, number)
}

proof fn numbered_identities_differ(left: Seq<char>, i: nat, right: Seq<char>, j: nat)
    requires
        left.len() == 12,
        right.len() == 12,
        1 <= i,
        1 <= j,
        numbered_identity(left, i) == numbered_identity(right, j),
    ensures
        left == right,
        i == j,
{
    reveal_strlit("-");
    let first = numbered_identity(left, i);
    let second = numbered_identity(right, j);
    assert(first.take(12) =~= left);
    assert(second.take(12) =~= right);
    crate::text::decimals_are_read_back(i);
    crate::text::decimals_are_read_back(j);
    if i > 1 && j > 1 {
        assert(first.skip(13) =~= decimal(i));
        assert(second.skip(13) =~= decimal(j));
    }
}

proof fn entering_tells_apart(table: ClosureTableModel, closure: RustClosureModel)
    requires
        told_apart(table),
        structural_identity(closure).len() == 12,
    ensures
        told_apart(behind_closure(table, closure)),
{
    let after = behind_closure(table, closure);
    let base = structural_identity(closure);
    let count = table.identities.len() as int;
    let number = occurrences(table.identities, base, count) + 1;
    let identity = numbered_identity(base, number);
    occurrences_of_more(table.identities, base, base, count);
    assert(occurrences(after.identities, base, count + 1) == number);
    assert(is_given(after.identities, identity, base, number));
    assert forall|k: int| 0 <= k < table.sources.len() implies (#[trigger] table.sources[k]).identity
        != identity && exists|own: Seq<char>, other: nat|
        is_given(after.identities, table.sources[k].identity, own, other) by {
        let (own, other): (Seq<char>, nat) = choose|own: Seq<char>, other: nat|
            is_given(table.identities, table.sources[k].identity, own, other);
        occurrences_of_more(table.identities, base, own, count);
        assert(is_given(after.identities, table.sources[k].identity, own, other));
        if table.sources[k].identity == identity {
            numbered_identities_differ(own, other, base, number);
        }
    }
    found_places_are_first(table.sources, closure.span, 0);
    match source_place(table.sources, closure.span, 0) {
        Some(place) => {
            assert(after.sources[place].identity == identity);
            assert forall|k: int| 0 <= k < after.sources.len() implies exists|
                own: Seq<char>,
                other: nat,
            |
                is_given(after.identities, (#[trigger] after.sources[k]).identity, own, other) by {
                if k != place {
                    assert(after.sources[k] == table.sources[k]);
                }
            }
        },
        None => {
            let last = table.sources.len() as int;
            assert(after.sources[last].identity == identity);
            assert forall|k: int| 0 <= k < after.sources.len() implies exists|
                own: Seq<char>,
                other: nat,
            |
                is_given(after.identities, (#[trigger] after.sources[k]).identity, own, other) by {
                if k != last {
                    assert(after.sources[k] == table.sources[k]);
                }
            }
        },
    }
}

fn enter_closure(table: &mut ClosureTable, closure: &RustClosure)
    requires
        told_apart(old(table)@),
    ensures
        final(table)@ == behind_closure(old(table)@, closure@),
        told_apart(final(table)@),
{
    let ghost start = table@;
    let base = closure_structural_identity(closure);
    proof {
        entering_tells_apart(start, closure@);
    }
    let earlier: usize = count_occurrences(&table.identities, base.as_str());
    proof {
        assert(start.identities.len() == table.identities@.len());
        assert(start.bindings.len() == table.bindings@.len());
        assert(start.sources.len() == table.sources@.len());
    }
    let identity = if earlier == 0 {
        base.clone()
    } else {
        let mut identity = concat_texts(base.as_str(), "-");
        identity.append(crate::text::wide_decimal_text(earlier as u128 + 1).as_str());
        identity
    };
    let source = ClosureSource {
        span: closure.span,
        ordinal: table.sources.len(),
        binding: find_binding(&table.bindings, closure.span),
        identity,
    };
    let ghost model = source@;
    match find_source_place(&table.sources, closure.span) {
        Some(place) => {
            table.sources.set(place, source);
            proof {
                assert(views(table.sources@) =~= start.sources.update(place as int, model));
            }
        },
        None => {
            table.sources.push(source);
            proof {
                assert(views(table.sources@) =~= start.sources.push(model));
            }
        },
    }
    let ghost text = base@;
    table.identities.push(base);
    proof {
        assert(texts(table.identities@) =~= start.identities.push(text));
    }
}

proof fn bindings_do_not_matter(before: ClosureTableModel, after: ClosureTableModel)
    requires
        told_apart(before),
        after.sources == before.sources,
        after.identities == before.identities,
    ensures
        told_apart(after),
{
    assert forall|k: int| 0 <= k < after.sources.len() implies exists|
        base: Seq<char>,
        number: nat,
    |
        is_given(after.identities, (#[trigger] after.sources[k]).identity, base, number) by {
        let (base, number): (Seq<char>, nat) = choose|base: Seq<char>, number: nat|
            is_given(before.identities, before.sources[k].identity, base, number);
        assert(is_given(after.identities, after.sources[k].identity, base, number));
    }
}

fn enter_local(table: &mut ClosureTable, local: &RustLocal)
    requires
        told_apart(old(table)@),
    ensures
        told_apart(final(table)@),
        final(table)@ == behind_local(old(table)@, local@),
{
    let ghost start = table@;
    if let Some(value) = &local.value {
        if let Some(name) = simple_pattern_binding(&local.pattern) {
            if let Some(span) = direct_closure_expression(value) {
                let ghost model = name@;
                table.bindings.push(BoundClosure { span, name });
                proof {
                    assert(views(table.bindings@) =~= start.bindings.push((span, model)));
                }
            }
        }
    }
    proof {
        bindings_do_not_matter(start, table@);
    }
}

fn collect_closures(nodes: &Vec<RustNode>, table: &mut ClosureTable)
    requires
        told_apart(old(table)@),
    ensures
        told_apart(final(table)@),
        final(table)@ == table_behind(views(nodes@), old(table)@, nodes@.len()),
    decreases nodes,
{
    let ghost start = table@;
    let ghost all = views(nodes@);
    let mut index: usize = 0;
    while index < nodes.len()
        invariant
            index <= nodes@.len(),
            told_apart(table@),
            all == views(nodes@),
            table@ == table_behind(all, start, index as nat),
        decreases nodes@.len() - index,
    {
        let node = &nodes[index];
        let ghost before = table@;
        assert(decreases_to!(nodes => node));
        proof {
            assert(all[index as int] == node@);
            node_parts(*node);
        }
        match node {
            RustNode::Call(call) => {
                collect_closures(&call.inner, table);
            },
            RustNode::Method(call) => {
                collect_closures(&call.inner, table);
            },
            RustNode::Closure(closure) => {
                enter_closure(table, closure);
                collect_closures(&closure.head, table);
                collect_closures(&closure.body, table);
            },
            RustNode::Local(local) => {
                enter_local(table, local);
                collect_closures(&local.inner, table);
            },
            RustNode::Macro(inner) => {
                if let Some(expressions) = evaluated_macro_expressions(inner) {
                    assert(decreases_to!(node => inner));
                    assert(decreases_to!(inner => expressions));
                    collect_closures(expressions, table);
                }
            },
            RustNode::Function(_) => {},
        }
        proof {
            assert(table@ == table_behind_node(node@, before));
            assert(table_behind(all, start, (index + 1) as nat) == table_behind_node(
                all[index as int],
                table_behind(all, start, index as nat),
            ));
        }
        index += 1;
    }
}

/// The closures of a body.
pub open spec fn body_closures(nodes: Seq<RustNodeModel>) -> Seq<SourceModel> {
    table_behind(
        nodes,
        ClosureTableModel {
            sources: Seq::empty(),
            bindings: Seq::empty(),
            identities: Seq::empty(),
        },
        nodes.len(),
    ).sources
}

/// Finds the closures of a body. No two of them are known by the same
/// identity.
pub fn closure_sources(nodes: &Vec<RustNode>) -> (result: Vec<ClosureSource>)
    ensures
        views(result@) == body_closures(views(nodes@)),
        forall|i: int, j: int|
            0 <= i < j < result@.len() ==> (#[trigger] result@[i]).identity@ != (
            #[trigger] result@[j]).identity@,
{
    let mut table = ClosureTable {
        sources: Vec::new(),
        bindings: Vec::new(),
        identities: Vec::new(),
    };
    proof {
        assert(views(table.sources@) =~= Seq::empty());
        assert(views(table.bindings@) =~= Seq::empty());
        assert(texts(table.identities@) =~= Seq::empty());
    }
    collect_closures(nodes, &mut table);
    proof {
        assert forall|i: int, j: int| 0 <= i < j < table.sources@.len() implies (
        #[trigger] table.sources@[i]).identity@ != (#[trigger] table.sources@[j]).identity@ by {
            assert(table@.sources[i].identity == table.sources@[i].identity@);
            assert(table@.sources[j].identity == table.sources@[j].identity@);
        }
    }
    table.sources
}

/// A closure in between that begins otherwise does not change what a closure
/// is known by.
pub proof fn other_closures_do_not_matter(
    table: ClosureTableModel,
    other: RustClosureModel,
    closure: RustClosureModel,
)
    requires
        structural_identity(other) != structural_identity(closure),
        other.span != closure.span,
    ensures
        source_at(behind_closure(behind_closure(table, other), closure).sources, closure.span) is Some,
        source_at(
            behind_closure(behind_closure(table, other), closure).sources,
            closure.span,
        )->0.identity == source_at(
            behind_closure(table, closure).sources,
            closure.span,
        )->0.identity,
{
    let between = behind_closure(table, other);
    let base = structural_identity(closure);
    let count = table.identities.len() as int;
    occurrences_of_more(table.identities, structural_identity(other), base, count);
    assert(occurrences(between.identities, base, count + 1) == occurrences(
        table.identities,
        base,
        count,
    ));
    added_sources_are_found(between, closure);
    added_sources_are_found(table, closure);
}

proof fn occurrences_of_more(values: Seq<Seq<char>>, more: Seq<char>, value: Seq<char>, count: int)
    requires
        0 <= count <= values.len(),
    ensures
        occurrences(values.push(more), value, count) == occurrences(values, value, count),
    decreases count,
{
    if count > 0 {
        occurrences_of_more(values, more, value, count - 1);
    }
}

proof fn source_places_are_first(sources: Seq<SourceModel>, span: RustSpan, index: int, place: int)
    requires
        0 <= index <= place < sources.len(),
        sources[place].span == span,
        forall|k: int| index <= k < place ==> (#[trigger] sources[k]).span != span,
    ensures
        source_place(sources, span, index) == Some(place),
    decreases place - index,
{
    if index < place {
        source_places_are_first(sources, span, index + 1, place);
    }
}

proof fn found_places_are_first(sources: Seq<SourceModel>, span: RustSpan, index: int)
    requires
        0 <= index,
    ensures
        match source_place(sources, span, index) {
            Some(place) => index <= place < sources.len() && sources[place].span == span
                && forall|k: int| index <= k < place ==> (#[trigger] sources[k]).span != span,
            None => forall|k: int|
                index <= k < sources.len() ==> (#[trigger] sources[k]).span != span,
        },
    decreases sources.len() - index,
{
    if index < sources.len() && sources[index].span != span {
        found_places_are_first(sources, span, index + 1);
    }
}

proof fn added_sources_are_found(table: ClosureTableModel, closure: RustClosureModel)
    ensures
        source_at(behind_closure(table, closure).sources, closure.span) is Some,
        ({
            let base = structural_identity(closure);
            let earlier = occurrences(table.identities, base, table.identities.len() as int);
            source_at(behind_closure(table, closure).sources, closure.span)->0.identity == (
            if earlier == 0 {
                base
            } else {
                base + "-"@ + decimal(earlier + 1)
            })
        }),
{
    let after = behind_closure(table, closure).sources;
    found_places_are_first(table.sources, closure.span, 0);
    match source_place(table.sources, closure.span, 0) {
        Some(place) => {
            source_places_are_first(after, closure.span, 0, place);
        },
        None => {
            source_places_are_first(after, closure.span, 0, table.sources.len() as int);
        },
    }
}

} // verus!

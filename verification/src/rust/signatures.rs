//! The signature of a Rust function: its label, the facts that it states, and
//! the calls through its generic parameters.
use crate::lists::views;
use crate::model::{
    CallLabel, CallSite, CallSyntax, CallTarget, FactModel, LabelModel, LanguageFact, LanguageId,
    short_name, SiteModel, SourceSpan, SpanModel, SymbolId, SymbolModel, SyntaxModel, TargetModel,
    visible_syntax,
};
use crate::paths::SourcePath;
use crate::rust::items::{
    token_lists, GenericKind, GenericKindModel, GenericParameter, GenericParameterModel,
    PatternShape, PatternShapeModel, RustInput, RustInputModel, RustPattern, RustPatternModel,
    RustPredicate, RustPredicateModel, RustSignature, RustSignatureModel, RustSpan, RustToken,
    RustTokenModel, TypeShape, TypeShapeModel,
};
use crate::rust::labels::{label_with_callee, replace_label_callee};
use crate::rust::lambdas::{compact, compact_tokens, simple_binding, simple_pattern_binding};
use crate::sets::{add_texts, with_texts};
use crate::text::{
    concat_texts, copy_texts, join_texts, joined, optional, same_text, texts,
};
use vstd::prelude::*;

verus! {

/// A stretch of a Rust source in its file.
pub open spec fn file_span(file: Seq<char>, span: RustSpan) -> SpanModel {
    SpanModel {
        file,
        start_line: span.start_line,
        start_column: span.start_column,
        start_byte: None,
        end_line: if span.end_line < span.start_line {
            span.start_line
        } else {
            span.end_line
        },
        end_column: span.end_column,
        end_byte: None,
    }
}

/// A stretch of a Rust source in its file.
pub fn source_span(file: &SourcePath, span: RustSpan) -> (result: SourceSpan)
    ensures
        result@ == file_span(file@, span),
{
    SourceSpan {
        file: file.clone(),
        start_line: span.start_line,
        start_column: span.start_column,
        start_byte: None,
        end_line: if span.end_line < span.start_line {
            span.start_line
        } else {
            span.end_line
        },
        end_column: span.end_column,
        end_byte: None,
    }
}

/// What a pattern is called.
pub open spec fn pattern_text(pattern: RustPatternModel) -> Seq<char>
    decreases pattern,
{
    match pattern.shape {
        PatternShapeModel::Ident(name) => name,
        PatternShapeModel::Reference(inner) => pattern_text(*inner),
        PatternShapeModel::Wild => "_"@,
        _ => compact(pattern.tokens),
    }
}

/// What a pattern is called.
pub fn pattern_name(pattern: &RustPattern) -> (result: String)
    ensures
        result@ == pattern_text(pattern@),
    decreases pattern,
{
    match &pattern.shape {
        PatternShape::Ident(name) => name.clone(),
        PatternShape::Reference(inner) => pattern_name(inner),
        PatternShape::Wild => "_".to_owned(),
        _ => compact_tokens(&pattern.tokens),
    }
}

/// A pattern with the type that it states.
pub open spec fn typed_pattern_text(pattern: RustPatternModel) -> Seq<char> {
    match pattern.shape {
        PatternShapeModel::Typed(inner, ty) => pattern_text(*inner) + ": "@ + compact(ty.tokens),
        _ => pattern_text(pattern),
    }
}

/// A pattern with the type that it states.
pub fn typed_pattern_name(pattern: &RustPattern) -> (result: String)
    ensures
        result@ == typed_pattern_text(pattern@),
{
    match &pattern.shape {
        PatternShape::Typed(inner, ty) => {
            let mut result = pattern_name(inner);
            result.append(": ");
            result.append(compact_tokens(&ty.tokens).as_str());
            result
        },
        _ => pattern_name(pattern),
    }
}

/// How a method takes its receiver.
pub open spec fn receiver_mode(reference: bool, mutable: bool) -> Seq<char> {
    if reference {
        if mutable {
            "&mut self"@
        } else {
            "&self"@
        }
    } else if mutable {
        "mut self"@
    } else {
        "self"@
    }
}

fn receiver_text(reference: bool, mutable: bool) -> (result: String)
    ensures
        result@ == receiver_mode(reference, mutable),
{
    if reference {
        if mutable {
            "&mut self".to_owned()
        } else {
            "&self".to_owned()
        }
    } else if mutable {
        "mut self".to_owned()
    } else {
        "self".to_owned()
    }
}

/// What a parameter is called.
pub open spec fn input_text(input: RustInputModel) -> Seq<char> {
    match input {
        RustInputModel::Receiver { reference, mutable, .. } => receiver_mode(reference, mutable),
        RustInputModel::Typed { pattern, .. } => pattern_text(pattern),
    }
}

/// A parameter with its type.
pub open spec fn typed_input_text(input: RustInputModel) -> Seq<char> {
    match input {
        RustInputModel::Receiver { reference, mutable, .. } => receiver_mode(reference, mutable),
        RustInputModel::Typed { pattern, ty, .. } => pattern_text(pattern) + ": "@ + compact(
            ty.tokens,
        ),
    }
}

/// The parameters of a function, as text.
pub open spec fn parameter_list(signature: RustSignatureModel, types: bool) -> Seq<char> {
    joined(
        signature.inputs.map_values(
            |input: RustInputModel|
                if types {
                    typed_input_text(input)
                } else {
                    input_text(input)
                },
        ),
        ", "@,
    )
}

fn write_parameters(signature: &RustSignature, types: bool) -> (result: String)
    ensures
        result@ == parameter_list(signature@, types),
{
    let ghost wanted = signature@.inputs.map_values(
        |input: RustInputModel|
            if types {
                typed_input_text(input)
            } else {
                input_text(input)
            },
    );
    let mut parts: Vec<String> = Vec::new();
    let mut index: usize = 0;
    while index < signature.inputs.len()
        invariant
            index <= signature.inputs@.len(),
            parts@.len() == index,
            wanted == signature@.inputs.map_values(
                |input: RustInputModel|
                    if types {
                        typed_input_text(input)
                    } else {
                        input_text(input)
                    },
            ),
            forall|k: int| 0 <= k < index ==> (#[trigger] parts@[k])@ == wanted[k],
        decreases signature.inputs@.len() - index,
    {
        proof {
            assert(signature@.inputs[index as int] == signature.inputs@[index as int]@);
        }
        let part = match &signature.inputs[index] {
            RustInput::Receiver { reference, mutable, .. } => receiver_text(*reference, *mutable),
            RustInput::Typed { pattern, ty, .. } => {
                let mut part = pattern_name(pattern);
                if types {
                    part.append(": ");
                    part.append(compact_tokens(&ty.tokens).as_str());
                }
                part
            },
        };
        parts.push(part);
        index += 1;
    }
    proof {
        assert(texts(parts@) =~= wanted);
    }
    join_texts(&parts, ", ")
}

/// The parameters of a function.
pub fn parameter_names(signature: &RustSignature) -> (result: String)
    ensures
        result@ == parameter_list(signature@, false),
{
    write_parameters(signature, false)
}

/// The parameters of a function with their types.
pub fn typed_parameters(signature: &RustSignature) -> (result: String)
    ensures
        result@ == parameter_list(signature@, true),
{
    write_parameters(signature, true)
}

/// Each list of tokens as text.
pub open spec fn compact_all(lists: Seq<Seq<RustTokenModel>>) -> Seq<Seq<char>> {
    lists.map_values(|tokens: Seq<RustTokenModel>| compact(tokens))
}

/// Each list of tokens as text.
pub fn compact_lists(lists: &Vec<Vec<RustToken>>) -> (result: Vec<String>)
    ensures
        texts(result@) == compact_all(token_lists(lists@)),
{
    let mut result: Vec<String> = Vec::new();
    let mut index: usize = 0;
    while index < lists.len()
        invariant
            index <= lists@.len(),
            result@.len() == index,
            forall|k: int|
                0 <= k < index ==> (#[trigger] result@[k])@ == compact_all(token_lists(lists@))[k],
        decreases lists@.len() - index,
    {
        proof {
            assert(token_lists(lists@)[index as int] == views(lists@[index as int]@));
        }
        result.push(compact_tokens(&lists[index]));
        index += 1;
    }
    proof {
        assert(texts(result@) =~= compact_all(token_lists(lists@)));
    }
    result
}

/// What the first `count` predicates ask of the type or lifetime of a name.
pub open spec fn where_bounds(predicates: Seq<RustPredicateModel>, name: Seq<char>, count: int) -> Seq<
    Seq<char>,
>
    decreases count,
{
    if count <= 0 {
        Seq::empty()
    } else {
        let before = where_bounds(predicates, name, count - 1);
        match predicates[count - 1] {
            RustPredicateModel::Type { bounded, bounds } => if compact(bounded) == name {
                before + compact_all(bounds)
            } else {
                before
            },
            RustPredicateModel::Other => before,
        }
    }
}

fn append_where_bounds(list: &mut Vec<String>, predicates: &Vec<RustPredicate>, name: &str)
    ensures
        texts(final(list)@) == texts(old(list)@) + where_bounds(
            views(predicates@),
            name@,
            predicates@.len() as int,
        ),
{
    let ghost start = texts(list@);
    let mut index: usize = 0;
    proof {
        assert(start + where_bounds(views(predicates@), name@, 0) =~= start);
    }
    while index < predicates.len()
        invariant
            index <= predicates@.len(),
            texts(list@) == start + where_bounds(views(predicates@), name@, index as int),
        decreases predicates@.len() - index,
    {
        proof {
            assert(views(predicates@)[index as int] == predicates@[index as int]@);
        }
        if let RustPredicate::Type { bounded, bounds } = &predicates[index] {
            if same_text(compact_tokens(bounded).as_str(), name) {
                let ghost before = texts(list@);
                let mut more = compact_lists(bounds);
                let ghost added = texts(more@);
                list.append(&mut more);
                proof {
                    assert(texts(list@) =~= before + added);
                    assert(start + where_bounds(views(predicates@), name@, index as int) + added
                        =~= start + (where_bounds(views(predicates@), name@, index as int) + added));
                }
            }
        }
        index += 1;
    }
}

/// The first `count` texts that are not empty.
pub open spec fn nonempty(values: Seq<Seq<char>>, count: int) -> Seq<Seq<char>>
    decreases count,
{
    if count <= 0 {
        Seq::empty()
    } else if values[count - 1].len() == 0 {
        nonempty(values, count - 1)
    } else {
        nonempty(values, count - 1).push(values[count - 1])
    }
}

/// A generic parameter with what is asked of it, each thing once and in order.
pub open spec fn generic_text(name: Seq<char>, bounds: Seq<Seq<char>>) -> Seq<char> {
    let kept = nonempty(bounds, bounds.len() as int);
    let ordered = with_texts(Seq::empty(), kept, kept.len() as int);
    if ordered.len() == 0 {
        name
    } else {
        name + ": "@ + joined(ordered, " + "@)
    }
}

fn keep_nonempty(values: &Vec<String>) -> (result: Vec<String>)
    ensures
        texts(result@) == nonempty(texts(values@), values@.len() as int),
{
    let mut result: Vec<String> = Vec::new();
    let mut index: usize = 0;
    proof {
        assert(texts(result@) =~= Seq::empty());
    }
    while index < values.len()
        invariant
            index <= values@.len(),
            texts(result@) == nonempty(texts(values@), index as int),
        decreases values@.len() - index,
    {
        proof {
            assert(texts(values@)[index as int] == values@[index as int]@);
        }
        if crate::text::chars_of(values[index].as_str()).len() > 0 {
            let ghost before = texts(result@);
            result.push(values[index].clone());
            proof {
                assert(texts(result@) =~= before.push(values@[index as int]@));
            }
        }
        index += 1;
    }
    result
}

/// A generic parameter with what is asked of it.
pub fn format_generic_parameter(name: &str, bounds: &Vec<String>) -> (result: String)
    ensures
        result@ == generic_text(name@, texts(bounds@)),
{
    let kept = keep_nonempty(bounds);
    let mut ordered: Vec<String> = Vec::new();
    proof {
        assert(texts(ordered@) =~= Seq::empty());
        assert(texts(kept@).len() == kept@.len());
        assert(texts(bounds@).len() == bounds@.len());
    }
    add_texts(&mut ordered, &kept);
    proof {
        assert(texts(ordered@).len() == ordered@.len());
    }
    if ordered.len() == 0 {
        name.to_owned()
    } else {
        let mut result = concat_texts(name, ": ");
        result.append(join_texts(&ordered, " + ").as_str());
        result
    }
}

/// A generic parameter of a function in its label.
pub open spec fn generic_label(parameter: GenericParameterModel, predicates: Seq<RustPredicateModel>) -> Seq<
    char,
> {
    match parameter.kind {
        GenericKindModel::Lifetime { name, outlived } => generic_text(
            name,
            outlived + where_bounds(predicates, name, predicates.len() as int),
        ),
        GenericKindModel::Type { name, bounds } => generic_text(
            name,
            compact_all(bounds) + where_bounds(predicates, name, predicates.len() as int),
        ),
        GenericKindModel::Const { name, ty } => "const "@ + name + ": "@ + compact(ty),
    }
}

/// The generic parameters of a function in its label.
pub open spec fn generic_labels(signature: RustSignatureModel) -> Seq<Seq<char>> {
    signature.generics.map_values(
        |parameter: GenericParameterModel| generic_label(parameter, signature.predicates),
    )
}

fn write_generic(parameter: &GenericParameter, predicates: &Vec<RustPredicate>) -> (result: String)
    ensures
        result@ == generic_label(parameter@, views(predicates@)),
{
    proof {
        assert(views(predicates@).len() == predicates@.len());
    }
    match &parameter.kind {
        GenericKind::Lifetime { name, outlived } => {
            let mut bounds = copy_texts(outlived);
            append_where_bounds(&mut bounds, predicates, name.as_str());
            format_generic_parameter(name.as_str(), &bounds)
        },
        GenericKind::Type { name, bounds } => {
            let mut list = compact_lists(bounds);
            append_where_bounds(&mut list, predicates, name.as_str());
            format_generic_parameter(name.as_str(), &list)
        },
        GenericKind::Const { name, ty } => {
            let mut result = concat_texts("const ", name.as_str());
            result.append(": ");
            result.append(compact_tokens(ty).as_str());
            result
        },
    }
}

/// The generic parameters of a function in its label.
pub fn generic_parameter_labels(signature: &RustSignature) -> (result: Vec<String>)
    ensures
        texts(result@) == generic_labels(signature@),
{
    let mut result: Vec<String> = Vec::new();
    let mut index: usize = 0;
    while index < signature.generics.len()
        invariant
            index <= signature.generics@.len(),
            result@.len() == index,
            forall|k: int|
                0 <= k < index ==> (#[trigger] result@[k])@ == generic_labels(signature@)[k],
        decreases signature.generics@.len() - index,
    {
        proof {
            assert(signature@.generics[index as int] == signature.generics@[index as int]@);
        }
        result.push(write_generic(&signature.generics[index], &signature.predicates));
        index += 1;
    }
    proof {
        assert(texts(result@) =~= generic_labels(signature@));
    }
    result
}

/// The label of a function: its name, its generic parameters and its
/// parameters.
pub open spec fn signature_label(id: SymbolModel, signature: RustSignatureModel) -> LabelModel {
    let generics = generic_labels(signature);
    let list = if generics.len() == 0 {
        ""@
    } else {
        "<"@ + joined(generics, ", "@) + ">"@
    };
    let start = short_name(id) + list + "("@;
    LabelModel {
        default: start + parameter_list(signature, false) + ")"@,
        typed: Some(start + parameter_list(signature, true) + ")"@),
    }
}

/// The label of a function.
pub fn function_label(id: &SymbolId, signature: &RustSignature) -> (result: CallLabel)
    ensures
        result@ == signature_label(id@, signature@),
{
    let generics = generic_parameter_labels(signature);
    proof {
        assert(texts(generics@).len() == generics@.len());
    }
    let list = if generics.len() == 0 {
        "".to_owned()
    } else {
        let mut list = concat_texts("<", join_texts(&generics, ", ").as_str());
        list.append(">");
        list
    };
    let mut start = id.short_name();
    start.append(list.as_str());
    start.append("(");
    let mut default = concat_texts(start.as_str(), parameter_names(signature).as_str());
    default.append(")");
    let mut typed = concat_texts(start.as_str(), typed_parameters(signature).as_str());
    typed.append(")");
    CallLabel::with_types(default.as_str(), typed.as_str())
}

/// A fact on a Rust function.
pub open spec fn rust_fact(
    subject: SymbolModel,
    kind: Seq<char>,
    key: Seq<char>,
    value: Seq<char>,
    span: SpanModel,
) -> FactModel {
    FactModel { subject, namespace: "rust"@, kind, key, value, span }
}

/// Adds a fact on a Rust function.
pub fn push_fact(
    facts: &mut Vec<LanguageFact>,
    subject: &SymbolId,
    kind: &str,
    key: &str,
    value: &str,
    span: SourceSpan,
)
    ensures
        views(final(facts)@) == views(old(facts)@).push(
            rust_fact(subject@, kind@, key@, value@, span@),
        ),
{
    let ghost before = views(facts@);
    let fact = LanguageFact {
        subject: subject.clone(),
        namespace: LanguageId::new("rust"),
        kind: kind.to_owned(),
        key: key.to_owned(),
        value: value.to_owned(),
        span,
    };
    let ghost model = fact@;
    facts.push(fact);
    proof {
        assert(views(facts@) =~= before.push(model));
    }
}

/// The fact that a generic parameter states.
pub open spec fn generic_fact(
    file: Seq<char>,
    subject: SymbolModel,
    parameter: GenericParameterModel,
) -> FactModel {
    let (key, value) = match parameter.kind {
        GenericKindModel::Lifetime { name, outlived } => (name, joined(outlived, " + "@)),
        GenericKindModel::Type { name, bounds } => (name, joined(compact_all(bounds), " + "@)),
        GenericKindModel::Const { name, ty } => (name, compact(ty)),
    };
    rust_fact(subject, "generic-parameter"@, key, value, file_span(file, parameter.span))
}

/// The fact that a parameter states.
pub open spec fn input_fact(file: Seq<char>, subject: SymbolModel, input: RustInputModel) -> FactModel {
    match input {
        RustInputModel::Receiver { reference, mutable, span } => rust_fact(
            subject,
            "receiver"@,
            "self"@,
            receiver_mode(reference, mutable),
            file_span(file, span),
        ),
        RustInputModel::Typed { pattern, ty, span } => rust_fact(
            subject,
            "parameter"@,
            compact(pattern.tokens),
            compact(ty.tokens),
            file_span(file, span),
        ),
    }
}

/// The facts with one on a modifier, where the function has it.
pub open spec fn with_modifier(
    facts: Seq<FactModel>,
    file: Seq<char>,
    subject: SymbolModel,
    modifier: Seq<char>,
    span: RustSpan,
    present: bool,
) -> Seq<FactModel> {
    if present {
        facts.push(rust_fact(subject, "modifier"@, modifier, "true"@, file_span(file, span)))
    } else {
        facts
    }
}

/// The facts that a signature states.
pub open spec fn signature_facts(
    file: Seq<char>,
    subject: SymbolModel,
    signature: RustSignatureModel,
) -> Seq<FactModel> {
    let generics = signature.generics.map_values(
        |parameter: GenericParameterModel| generic_fact(file, subject, parameter),
    );
    let inputs = signature.inputs.map_values(
        |input: RustInputModel| input_fact(file, subject, input),
    );
    let first = generics + inputs;
    let second = with_modifier(
        first,
        file,
        subject,
        "async"@,
        signature.span,
        signature.is_async,
    );
    let third = with_modifier(
        second,
        file,
        subject,
        "unsafe"@,
        signature.span,
        signature.is_unsafe,
    );
    let fourth = with_modifier(
        third,
        file,
        subject,
        "const"@,
        signature.span,
        signature.is_const,
    );
    match signature.output {
        Some(output) => fourth.push(
            rust_fact(
                subject,
                "return-type"@,
                "return"@,
                compact(output.ty),
                file_span(file, output.span),
            ),
        ),
        None => fourth,
    }
}

fn push_generic_fact(
    facts: &mut Vec<LanguageFact>,
    file: &SourcePath,
    subject: &SymbolId,
    parameter: &GenericParameter,
)
    ensures
        views(final(facts)@) == views(old(facts)@).push(
            generic_fact(file@, subject@, parameter@),
        ),
{
    let (key, value) = match &parameter.kind {
        GenericKind::Lifetime { name, outlived } => (name.clone(), join_texts(outlived, " + ")),
        GenericKind::Type { name, bounds } => (
            name.clone(),
            join_texts(&compact_lists(bounds), " + "),
        ),
        GenericKind::Const { name, ty } => (name.clone(), compact_tokens(ty)),
    };
    push_fact(
        facts,
        subject,
        "generic-parameter",
        key.as_str(),
        value.as_str(),
        source_span(file, parameter.span),
    );
}

fn push_input_fact(
    facts: &mut Vec<LanguageFact>,
    file: &SourcePath,
    subject: &SymbolId,
    input: &RustInput,
)
    ensures
        views(final(facts)@) == views(old(facts)@).push(input_fact(file@, subject@, input@)),
{
    match input {
        RustInput::Receiver { reference, mutable, span } => push_fact(
            facts,
            subject,
            "receiver",
            "self",
            receiver_text(*reference, *mutable).as_str(),
            source_span(file, *span),
        ),
        RustInput::Typed { pattern, ty, span } => push_fact(
            facts,
            subject,
            "parameter",
            compact_tokens(&pattern.tokens).as_str(),
            compact_tokens(&ty.tokens).as_str(),
            source_span(file, *span),
        ),
    }
}

fn push_modifier_fact(
    facts: &mut Vec<LanguageFact>,
    file: &SourcePath,
    subject: &SymbolId,
    modifier: &str,
    span: RustSpan,
    present: bool,
)
    ensures
        views(final(facts)@) == with_modifier(
            views(old(facts)@),
            file@,
            subject@,
            modifier@,
            span,
            present,
        ),
{
    if present {
        push_fact(facts, subject, "modifier", modifier, "true", source_span(file, span));
    }
}

/// The facts that a signature states.
pub fn make_signature_facts(file: &SourcePath, subject: &SymbolId, signature: &RustSignature) -> (result:
    Vec<LanguageFact>)
    ensures
        views(result@) == signature_facts(file@, subject@, signature@),
{
    let ghost generics = signature@.generics.map_values(
        |parameter: GenericParameterModel| generic_fact(file@, subject@, parameter),
    );
    let ghost inputs = signature@.inputs.map_values(
        |input: RustInputModel| input_fact(file@, subject@, input),
    );
    let mut facts: Vec<LanguageFact> = Vec::new();
    let mut index: usize = 0;
    proof {
        assert(views(facts@) =~= generics.take(0));
    }
    while index < signature.generics.len()
        invariant
            index <= signature.generics@.len(),
            generics == signature@.generics.map_values(
                |parameter: GenericParameterModel| generic_fact(file@, subject@, parameter),
            ),
            views(facts@) == generics.take(index as int),
        decreases signature.generics@.len() - index,
    {
        proof {
            assert(signature@.generics[index as int] == signature.generics@[index as int]@);
        }
        push_generic_fact(&mut facts, file, subject, &signature.generics[index]);
        proof {
            assert(views(facts@) =~= generics.take(index + 1));
        }
        index += 1;
    }
    let mut next: usize = 0;
    proof {
        assert(views(facts@) =~= generics + inputs.take(0));
    }
    while next < signature.inputs.len()
        invariant
            next <= signature.inputs@.len(),
            inputs == signature@.inputs.map_values(
                |input: RustInputModel| input_fact(file@, subject@, input),
            ),
            views(facts@) == generics + inputs.take(next as int),
        decreases signature.inputs@.len() - next,
    {
        proof {
            assert(signature@.inputs[next as int] == signature.inputs@[next as int]@);
        }
        push_input_fact(&mut facts, file, subject, &signature.inputs[next]);
        proof {
            assert(views(facts@) =~= generics + inputs.take(next + 1));
        }
        next += 1;
    }
    proof {
        assert(inputs.take(next as int) =~= inputs);
    }
    push_modifier_fact(&mut facts, file, subject, "async", signature.span, signature.is_async);
    push_modifier_fact(&mut facts, file, subject, "unsafe", signature.span, signature.is_unsafe);
    push_modifier_fact(&mut facts, file, subject, "const", signature.span, signature.is_const);
    if let Some(output) = &signature.output {
        push_fact(
            &mut facts,
            subject,
            "return-type",
            "return",
            compact_tokens(&output.ty).as_str(),
            source_span(file, output.span),
        );
    }
    facts
}

/// The name of the generic parameter that a type is, or refers to.
pub open spec fn generic_name(shape: TypeShapeModel) -> Option<Seq<char>>
    decreases shape,
{
    match shape {
        TypeShapeModel::Path(qualified, names) => if !qualified && names.len() == 1 {
            Some(names[0])
        } else {
            None
        },
        TypeShapeModel::Reference(inner) => generic_name(*inner),
        TypeShapeModel::Group(inner) => generic_name(*inner),
        TypeShapeModel::Paren(inner) => generic_name(*inner),
        TypeShapeModel::Other => None,
    }
}

/// The name of the generic parameter that a type is, or refers to.
pub fn simple_generic_type(shape: &TypeShape) -> (result: Option<String>)
    ensures
        optional(result) == generic_name(shape@),
    decreases shape,
{
    match shape {
        TypeShape::Path(qualified, names) => {
            proof {
                assert(texts(names@).len() == names@.len());
            }
            if !*qualified && names.len() == 1 {
                proof {
                    assert(texts(names@)[0] == names@[0]@);
                }
                Some(names[0].clone())
            } else {
                None
            }
        },
        TypeShape::Reference(inner) => simple_generic_type(inner),
        TypeShape::Group(inner) => simple_generic_type(inner),
        TypeShape::Paren(inner) => simple_generic_type(inner),
        TypeShape::Other => None,
    }
}

/// What the last of the first `count` type parameters of a name is bound by
/// where it is introduced.
pub open spec fn own_bounds(generics: Seq<GenericParameterModel>, name: Seq<char>, count: int) -> Option<
    Seq<Seq<char>>,
>
    decreases count,
{
    if count <= 0 {
        None
    } else {
        match generics[count - 1].kind {
            GenericKindModel::Type { name: own, bounds } => if own == name {
                Some(compact_all(bounds))
            } else {
                own_bounds(generics, name, count - 1)
            },
            _ => own_bounds(generics, name, count - 1),
        }
    }
}

/// What is asked of a type parameter, each thing once and in order. None where
/// a function has no type parameter of the name.
pub open spec fn type_bounds(signature: RustSignatureModel, name: Seq<char>) -> Option<Seq<Seq<char>>> {
    match own_bounds(signature.generics, name, signature.generics.len() as int) {
        Some(own) => {
            let all = own + where_bounds(
                signature.predicates,
                name,
                signature.predicates.len() as int,
            );
            Some(with_texts(Seq::empty(), all, all.len() as int))
        },
        None => None,
    }
}

fn find_own_bounds(generics: &Vec<GenericParameter>, name: &str) -> (result: Option<Vec<String>>)
    ensures
        match result {
            Some(bounds) => own_bounds(views(generics@), name@, generics@.len() as int) == Some(
                texts(bounds@),
            ),
            None => own_bounds(views(generics@), name@, generics@.len() as int) is None,
        },
{
    let mut count: usize = generics.len();
    while count > 0
        invariant
            count <= generics@.len(),
            own_bounds(views(generics@), name@, count as int) == own_bounds(
                views(generics@),
                name@,
                generics@.len() as int,
            ),
        decreases count,
    {
        proof {
            assert(views(generics@)[count - 1] == generics@[count - 1]@);
        }
        if let GenericKind::Type { name: own, bounds } = &generics[count - 1].kind {
            if same_text(own.as_str(), name) {
                return Some(compact_lists(bounds));
            }
        }
        count -= 1;
    }
    None
}

/// What is asked of a type parameter.
pub fn generic_type_bounds(signature: &RustSignature, name: &str) -> (result: Option<Vec<String>>)
    ensures
        match result {
            Some(bounds) => type_bounds(signature@, name@) == Some(texts(bounds@)),
            None => type_bounds(signature@, name@) is None,
        },
{
    proof {
        assert(signature@.generics.len() == signature.generics@.len());
        assert(signature@.predicates.len() == signature.predicates@.len());
    }
    match find_own_bounds(&signature.generics, name) {
        Some(mut all) => {
            append_where_bounds(&mut all, &signature.predicates, name);
            let mut bounds: Vec<String> = Vec::new();
            proof {
                assert(texts(bounds@) =~= Seq::empty());
                assert(texts(all@).len() == all@.len());
            }
            add_texts(&mut bounds, &all);
            Some(bounds)
        },
        None => None,
    }
}

/// The type parameter that the last of the first `count` parameters of a name
/// has as its type.
pub open spec fn receiver_generic(signature: RustSignatureModel, receiver: Seq<char>, count: int) -> Option<
    Seq<char>,
>
    decreases count,
{
    if count <= 0 {
        None
    } else {
        let before = receiver_generic(signature, receiver, count - 1);
        match signature.inputs[count - 1] {
            RustInputModel::Typed { pattern, ty, .. } => match (
                simple_binding(pattern),
                generic_name(ty.shape),
            ) {
                (Some(name), Some(generic)) => if name == receiver && type_bounds(
                    signature,
                    generic,
                ) is Some {
                    Some(generic)
                } else {
                    before
                },
                _ => before,
            },
            _ => before,
        }
    }
}

fn find_receiver_generic(signature: &RustSignature, receiver: &str) -> (result: Option<String>)
    ensures
        optional(result) == receiver_generic(
            signature@,
            receiver@,
            signature.inputs@.len() as int,
        ),
{
    let mut count: usize = signature.inputs.len();
    while count > 0
        invariant
            count <= signature.inputs@.len(),
            receiver_generic(signature@, receiver@, count as int) == receiver_generic(
                signature@,
                receiver@,
                signature.inputs@.len() as int,
            ),
        decreases count,
    {
        proof {
            assert(signature@.inputs[count - 1] == signature.inputs@[count - 1]@);
        }
        if let RustInput::Typed { pattern, ty, .. } = &signature.inputs[count - 1] {
            if let Some(name) = simple_pattern_binding(pattern) {
                if let Some(generic) = simple_generic_type(&ty.shape) {
                    if same_text(name.as_str(), receiver) {
                        if let Some(_) = generic_type_bounds(signature, generic.as_str()) {
                            return Some(generic);
                        }
                    }
                }
            }
        }
        count -= 1;
    }
    None
}

/// A call with a method of a type parameter as its target, where its receiver
/// is a parameter of such a type.
pub open spec fn symbolic_call(
    module: Seq<Seq<char>>,
    signature: RustSignatureModel,
    call: SiteModel,
) -> SiteModel {
    match visible_syntax(call.syntax) {
        SyntaxModel::Method { receiver, method } => match receiver_generic(
            signature,
            receiver,
            signature.inputs.len() as int,
        ) {
            Some(generic) => {
                let container = match type_bounds(signature, generic) {
                    Some(bounds) => if bounds.len() == 1 {
                        generic + " as "@ + bounds[0]
                    } else {
                        generic
                    },
                    None => generic,
                };
                SiteModel {
                    target: TargetModel::Direct(
                        SymbolModel {
                            language: "rust"@,
                            module,
                            container: Some(container),
                            name: method,
                        },
                    ),
                    label: label_with_callee(call.label, generic + "::"@ + method),
                    ..call
                }
            },
            None => call,
        },
        _ => call,
    }
}

fn rewrite_call(module: &Vec<String>, signature: &RustSignature, call: &CallSite) -> (result: CallSite)
    ensures
        result@ == symbolic_call(texts(module@), signature@, call@),
{
    proof {
        assert(signature@.inputs.len() == signature.inputs@.len());
    }
    let mut result = call.clone();
    if let CallSyntax::Method { receiver, method } = call.syntax.visible() {
        if let Some(generic) = find_receiver_generic(signature, receiver.as_str()) {
            let container = match generic_type_bounds(signature, generic.as_str()) {
                Some(bounds) => {
                    proof {
                        assert(texts(bounds@).len() == bounds@.len());
                    }
                    if bounds.len() == 1 {
                        proof {
                            assert(texts(bounds@)[0] == bounds@[0]@);
                        }
                        let mut container = concat_texts(generic.as_str(), " as ");
                        container.append(bounds[0].as_str());
                        container
                    } else {
                        generic.clone()
                    }
                },
                None => generic.clone(),
            };
            let mut callee = concat_texts(generic.as_str(), "::");
            callee.append(method.as_str());
            result.target = CallTarget::Direct(
                SymbolId {
                    language: LanguageId::new("rust"),
                    module: copy_texts(module),
                    container: Some(container),
                    name: method.clone(),
                },
            );
            result.label = replace_label_callee(&call.label, callee.as_str());
        }
    }
    result
}

/// The calls of a function with methods of its type parameters as targets.
pub open spec fn symbolic_calls(
    module: Seq<Seq<char>>,
    signature: RustSignatureModel,
    calls: Seq<SiteModel>,
) -> Seq<SiteModel> {
    calls.map_values(|call: SiteModel| symbolic_call(module, signature, call))
}

/// Gives the calls of a function methods of its type parameters as targets.
pub fn rewrite_symbolic_generic_calls(
    module: &Vec<String>,
    signature: &RustSignature,
    calls: &Vec<CallSite>,
) -> (result: Vec<CallSite>)
    ensures
        views(result@) == symbolic_calls(texts(module@), signature@, views(calls@)),
{
    let ghost wanted = symbolic_calls(texts(module@), signature@, views(calls@));
    let mut result: Vec<CallSite> = Vec::new();
    let mut index: usize = 0;
    while index < calls.len()
        invariant
            index <= calls@.len(),
            result@.len() == index,
            wanted == symbolic_calls(texts(module@), signature@, views(calls@)),
            forall|k: int| 0 <= k < index ==> (#[trigger] result@[k])@ == wanted[k],
        decreases calls@.len() - index,
    {
        proof {
            assert(views(calls@)[index as int] == calls@[index as int]@);
        }
        result.push(rewrite_call(module, signature, &calls[index]));
        index += 1;
    }
    proof {
        assert(views(result@) =~= wanted);
    }
    result
}

} // verus!

//! What rustc says of a program: its function instances and their calls.
use crate::lists::{copy_list, views};
use crate::model::{copy_reasons, SourceSpan, SpanModel, UnresolvedReason};
use crate::text::{copy_texts, texts};
use vstd::prelude::*;

verus! {

/// The values that can reach a receiver or an argument of a dynamic type.
#[derive(Debug)]
pub struct SemanticDynFlow {
    pub concrete_types: Vec<String>,
    /// Parameters of the function whose values flow on.
    pub parameters: Vec<usize>,
    /// In order, each reason once.
    pub unresolved_reasons: Vec<UnresolvedReason>,
}

#[verifier::ext_equal]
pub struct FlowModel {
    pub concrete_types: Seq<Seq<char>>,
    pub parameters: Seq<usize>,
    pub unresolved_reasons: Seq<UnresolvedReason>,
}

impl View for SemanticDynFlow {
    type V = FlowModel;

    open spec fn view(&self) -> FlowModel {
        FlowModel {
            concrete_types: texts(self.concrete_types@),
            parameters: self.parameters@,
            unresolved_reasons: self.unresolved_reasons@,
        }
    }
}

/// A list with the same numbers.
pub fn copy_numbers(numbers: &Vec<usize>) -> (result: Vec<usize>)
    ensures
        result@ == numbers@,
{
    let mut result: Vec<usize> = Vec::new();
    let mut index: usize = 0;
    while index < numbers.len()
        invariant
            index <= numbers@.len(),
            result@.len() == index,
            forall|k: int| 0 <= k < index ==> result@[k] == numbers@[k],
        decreases numbers@.len() - index,
    {
        result.push(numbers[index]);
        index += 1;
    }
    proof {
        assert(result@ =~= numbers@);
    }
    result
}

impl Clone for SemanticDynFlow {
    fn clone(&self) -> (result: Self)
        ensures
            result@ == self@,
    {
        SemanticDynFlow {
            concrete_types: copy_texts(&self.concrete_types),
            parameters: copy_numbers(&self.parameters),
            unresolved_reasons: copy_reasons(&self.unresolved_reasons),
        }
    }
}

/// A function instance that a dynamic call may reach.
#[derive(Debug)]
pub struct SemanticDispatchCandidate {
    pub key: String,
    pub display: String,
}

#[verifier::ext_equal]
pub struct InstanceModel {
    pub key: Seq<char>,
    pub display: Seq<char>,
}

impl View for SemanticDispatchCandidate {
    type V = InstanceModel;

    open spec fn view(&self) -> InstanceModel {
        InstanceModel { key: self.key@, display: self.display@ }
    }
}

impl Clone for SemanticDispatchCandidate {
    fn clone(&self) -> (result: Self)
        ensures
            result@ == self@,
    {
        SemanticDispatchCandidate { key: self.key.clone(), display: self.display.clone() }
    }
}

/// What a call reaches, as far as rustc knows it.
#[derive(Debug)]
pub enum SemanticCallTarget {
    Direct { key: String, display: String },
    Dynamic {
        key: String,
        display: String,
        candidates: Vec<SemanticDispatchCandidate>,
        open: bool,
        /// In order, each reason once.
        unresolved_reasons: Vec<UnresolvedReason>,
        receiver_flow: SemanticDynFlow,
    },
    Indirect { signature: String },
    Unresolved,
}

pub enum SemanticTargetModel {
    Direct { key: Seq<char>, display: Seq<char> },
    Dynamic {
        key: Seq<char>,
        display: Seq<char>,
        candidates: Seq<InstanceModel>,
        open: bool,
        unresolved_reasons: Seq<UnresolvedReason>,
        receiver_flow: FlowModel,
    },
    Indirect { signature: Seq<char> },
    Unresolved,
}

impl View for SemanticCallTarget {
    type V = SemanticTargetModel;

    open spec fn view(&self) -> SemanticTargetModel {
        match self {
            SemanticCallTarget::Direct { key, display } => SemanticTargetModel::Direct {
                key: key@,
                display: display@,
            },
            SemanticCallTarget::Dynamic {
                key,
                display,
                candidates,
                open,
                unresolved_reasons,
                receiver_flow,
            } => SemanticTargetModel::Dynamic {
                key: key@,
                display: display@,
                candidates: views(candidates@),
                open: *open,
                unresolved_reasons: unresolved_reasons@,
                receiver_flow: receiver_flow@,
            },
            SemanticCallTarget::Indirect { signature } => SemanticTargetModel::Indirect {
                signature: signature@,
            },
            SemanticCallTarget::Unresolved => SemanticTargetModel::Unresolved,
        }
    }
}

impl Clone for SemanticCallTarget {
    fn clone(&self) -> (result: Self)
        ensures
            result@ == self@,
    {
        match self {
            SemanticCallTarget::Direct { key, display } => SemanticCallTarget::Direct {
                key: key.clone(),
                display: display.clone(),
            },
            SemanticCallTarget::Dynamic {
                key,
                display,
                candidates,
                open,
                unresolved_reasons,
                receiver_flow,
            } => SemanticCallTarget::Dynamic {
                key: key.clone(),
                display: display.clone(),
                candidates: copy_list(candidates),
                open: *open,
                unresolved_reasons: copy_reasons(unresolved_reasons),
                receiver_flow: receiver_flow.clone(),
            },
            SemanticCallTarget::Indirect { signature } => SemanticCallTarget::Indirect {
                signature: signature.clone(),
            },
            SemanticCallTarget::Unresolved => SemanticCallTarget::Unresolved,
        }
    }
}

/// A call that rustc saw in the body of a function instance.
#[derive(Debug)]
pub struct SemanticCall {
    pub target: SemanticCallTarget,
    pub definition_name: String,
    pub span: SourceSpan,
    pub argument_types: Vec<String>,
    pub argument_flows: Vec<SemanticDynFlow>,
}

#[verifier::ext_equal]
pub struct SemanticCallModel {
    pub target: SemanticTargetModel,
    pub definition_name: Seq<char>,
    pub span: SpanModel,
    pub argument_types: Seq<Seq<char>>,
    pub argument_flows: Seq<FlowModel>,
}

impl View for SemanticCall {
    type V = SemanticCallModel;

    open spec fn view(&self) -> SemanticCallModel {
        SemanticCallModel {
            target: self.target@,
            definition_name: self.definition_name@,
            span: self.span@,
            argument_types: texts(self.argument_types@),
            argument_flows: views(self.argument_flows@),
        }
    }
}

impl Clone for SemanticCall {
    fn clone(&self) -> (result: Self)
        ensures
            result@ == self@,
    {
        SemanticCall {
            target: self.target.clone(),
            definition_name: self.definition_name.clone(),
            span: self.span.clone(),
            argument_types: copy_texts(&self.argument_types),
            argument_flows: copy_list(&self.argument_flows),
        }
    }
}

/// A function instance: a function with its generic arguments filled in.
#[derive(Debug)]
pub struct SemanticFunction {
    /// The key without the context that the instance is specialized for.
    pub base_key: String,
    pub key: String,
    pub display: String,
    pub definition_name: String,
    pub body_span: SourceSpan,
    pub calls: Vec<SemanticCall>,
    pub constructor_spans: Vec<SourceSpan>,
    pub constructor_names: Vec<String>,
    pub parameter_types: Vec<String>,
}

#[verifier::ext_equal]
pub struct SemanticModel {
    pub base_key: Seq<char>,
    pub key: Seq<char>,
    pub display: Seq<char>,
    pub definition_name: Seq<char>,
    pub body_span: SpanModel,
    pub calls: Seq<SemanticCallModel>,
    pub constructor_spans: Seq<SpanModel>,
    pub constructor_names: Seq<Seq<char>>,
    pub parameter_types: Seq<Seq<char>>,
}

impl View for SemanticFunction {
    type V = SemanticModel;

    open spec fn view(&self) -> SemanticModel {
        SemanticModel {
            base_key: self.base_key@,
            key: self.key@,
            display: self.display@,
            definition_name: self.definition_name@,
            body_span: self.body_span@,
            calls: views(self.calls@),
            constructor_spans: views(self.constructor_spans@),
            constructor_names: texts(self.constructor_names@),
            parameter_types: texts(self.parameter_types@),
        }
    }
}

impl Clone for SemanticFunction {
    fn clone(&self) -> (result: Self)
        ensures
            result@ == self@,
    {
        SemanticFunction {
            base_key: self.base_key.clone(),
            key: self.key.clone(),
            display: self.display.clone(),
            definition_name: self.definition_name.clone(),
            body_span: self.body_span.clone(),
            calls: copy_list(&self.calls),
            constructor_spans: copy_list(&self.constructor_spans),
            constructor_names: copy_texts(&self.constructor_names),
            parameter_types: copy_texts(&self.parameter_types),
        }
    }
}

/// The function instances of a program.
#[derive(Debug)]
pub struct SemanticProgram {
    pub crate_name: String,
    pub functions: Vec<SemanticFunction>,
}

#[verifier::ext_equal]
pub struct ProgramModel {
    pub crate_name: Seq<char>,
    pub functions: Seq<SemanticModel>,
}

impl View for SemanticProgram {
    type V = ProgramModel;

    open spec fn view(&self) -> ProgramModel {
        ProgramModel { crate_name: self.crate_name@, functions: views(self.functions@) }
    }
}

impl Clone for SemanticProgram {
    fn clone(&self) -> (result: Self)
        ensures
            result@ == self@,
    {
        SemanticProgram {
            crate_name: self.crate_name.clone(),
            functions: copy_list(&self.functions),
        }
    }
}

} // verus!

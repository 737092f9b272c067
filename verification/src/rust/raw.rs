//! Function instances and their calls, before they are specialized for the
//! types that reach them.
use crate::lists::views;
use crate::model::{SourceSpan, SpanModel};
use crate::rust::provenance::{DynFlow, DynModel};
use crate::text::{same_text, texts};
use vstd::prelude::*;

verus! {

/// What a call reaches.
#[derive(Debug)]
pub enum RawSemanticCallTarget {
    Direct { key: String, display: String },
    /// A call through a method table, told apart by a number.
    Dynamic { dispatch: usize, key: String, display: String, receiver: DynFlow },
    Indirect { signature: String },
    Unresolved,
}

pub enum RawTargetModel {
    Direct { key: Seq<char>, display: Seq<char> },
    Dynamic { dispatch: usize, key: Seq<char>, display: Seq<char>, receiver: DynModel },
    Indirect { signature: Seq<char> },
    Unresolved,
}

impl View for RawSemanticCallTarget {
    type V = RawTargetModel;

    open spec fn view(&self) -> RawTargetModel {
        match self {
            RawSemanticCallTarget::Direct { key, display } => RawTargetModel::Direct {
                key: key@,
                display: display@,
            },
            RawSemanticCallTarget::Dynamic { dispatch, key, display, receiver } =>
            RawTargetModel::Dynamic {
                dispatch: *dispatch,
                key: key@,
                display: display@,
                receiver: receiver@,
            },
            RawSemanticCallTarget::Indirect { signature } => RawTargetModel::Indirect {
                signature: signature@,
            },
            RawSemanticCallTarget::Unresolved => RawTargetModel::Unresolved,
        }
    }
}

/// A call in the body of a function instance.
#[derive(Debug)]
pub struct RawSemanticCall {
    pub target: RawSemanticCallTarget,
    pub definition_name: String,
    pub span: SourceSpan,
    pub argument_types: Vec<String>,
    pub argument_flows: Vec<DynFlow>,
}

#[verifier::ext_equal]
pub struct RawCallModel {
    pub target: RawTargetModel,
    pub definition_name: Seq<char>,
    pub span: SpanModel,
    pub argument_types: Seq<Seq<char>>,
    pub argument_flows: Seq<DynModel>,
}

impl View for RawSemanticCall {
    type V = RawCallModel;

    open spec fn view(&self) -> RawCallModel {
        RawCallModel {
            target: self.target@,
            definition_name: self.definition_name@,
            span: self.span@,
            argument_types: texts(self.argument_types@),
            argument_flows: views(self.argument_flows@),
        }
    }
}

/// A function instance.
#[derive(Debug)]
pub struct RawSemanticFunction {
    pub key: String,
    pub display: String,
    pub definition_name: String,
    pub body_span: SourceSpan,
    pub calls: Vec<RawSemanticCall>,
    pub constructor_spans: Vec<SourceSpan>,
    pub constructor_names: Vec<String>,
    pub parameter_types: Vec<String>,
}

#[verifier::ext_equal]
pub struct RawModel {
    pub key: Seq<char>,
    pub display: Seq<char>,
    pub definition_name: Seq<char>,
    pub body_span: SpanModel,
    pub calls: Seq<RawCallModel>,
    pub constructor_spans: Seq<SpanModel>,
    pub constructor_names: Seq<Seq<char>>,
    pub parameter_types: Seq<Seq<char>>,
}

impl View for RawSemanticFunction {
    type V = RawModel;

    open spec fn view(&self) -> RawModel {
        RawModel {
            key: self.key@,
            display: self.display@,
            definition_name: self.definition_name@,
            body_span: self.body_span@,
            calls: views(self.calls@),
            constructor_spans: views(self.constructor_spans@),
            constructor_names: texts(self.constructor_names@),
            parameter_types: texts(self.parameter_types@),
        }
    }
}

/// The method that a dynamic call reaches for a type.
#[derive(Debug)]
pub struct DispatchEntry {
    pub dispatch: usize,
    pub concrete: usize,
    pub candidate: String,
}

impl View for DispatchEntry {
    type V = ((usize, usize), Seq<char>);

    open spec fn view(&self) -> ((usize, usize), Seq<char>) {
        ((self.dispatch, self.concrete), self.candidate@)
    }
}

/// A method that a dynamic call reaches for some type that occurs.
#[derive(Debug)]
pub struct ObservedDispatch {
    pub dispatch: usize,
    pub candidate: String,
}

impl View for ObservedDispatch {
    type V = (usize, Seq<char>);

    open spec fn view(&self) -> (usize, Seq<char>) {
        (self.dispatch, self.candidate@)
    }
}

/// What rustc knows of the dynamic calls of a crate.
#[derive(Debug)]
pub struct DispatchTable {
    pub crate_name: String,
    pub entries: Vec<DispatchEntry>,
    pub observed: Vec<ObservedDispatch>,
}

#[verifier::ext_equal]
pub struct TableModel {
    pub crate_name: Seq<char>,
    pub entries: Seq<((usize, usize), Seq<char>)>,
    pub observed: Seq<(usize, Seq<char>)>,
}

impl View for DispatchTable {
    type V = TableModel;

    open spec fn view(&self) -> TableModel {
        TableModel {
            crate_name: self.crate_name@,
            entries: views(self.entries@),
            observed: views(self.observed@),
        }
    }
}

/// The last of the first `count` functions with a key.
pub open spec fn last_with_key(functions: Seq<RawModel>, key: Seq<char>, count: int) -> Option<int>
    decreases count,
{
    if count <= 0 {
        None
    } else if functions[count - 1].key == key {
        Some(count - 1)
    } else {
        last_with_key(functions, key, count - 1)
    }
}

/// The function that a key stands for.
pub open spec fn function_of_key(functions: Seq<RawModel>, key: Seq<char>) -> Option<int> {
    last_with_key(functions, key, functions.len() as int)
}

/// The function that a key stands for is one of the functions.
pub proof fn keys_stand_for_functions(functions: Seq<RawModel>, key: Seq<char>, count: int)
    requires
        0 <= count <= functions.len(),
    ensures
        match last_with_key(functions, key, count) {
            Some(index) => 0 <= index < count && functions[index].key == key,
            None => true,
        },
    decreases count,
{
    if count > 0 {
        keys_stand_for_functions(functions, key, count - 1);
    }
}

/// The function that a key stands for.
pub fn find_function(functions: &Vec<RawSemanticFunction>, key: &str) -> (result: Option<usize>)
    ensures
        match result {
            Some(index) => index < functions@.len() && function_of_key(views(functions@), key@)
                == Some(index as int),
            None => function_of_key(views(functions@), key@) is None,
        },
{
    let mut count: usize = functions.len();
    proof {
        assert(views(functions@).len() == functions@.len());
    }
    while count > 0
        invariant
            count <= functions@.len(),
            function_of_key(views(functions@), key@) == last_with_key(
                views(functions@),
                key@,
                count as int,
            ),
        decreases count,
    {
        proof {
            assert(views(functions@)[count - 1] == functions@[count - 1]@);
        }
        if same_text(functions[count - 1].key.as_str(), key) {
            return Some(count - 1);
        }
        count -= 1;
    }
    None
}

} // verus!

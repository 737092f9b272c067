//! The bodies of function instances, as far as the flow of dynamic values
//! depends on them.
use crate::lists::views;
use crate::text::{contains, contains_text, starts_with, starts_with_text};
use vstd::prelude::*;

verus! {

/// A step from a value to a part of it.
#[derive(Clone, Copy, Debug, PartialEq, Eq, Structural)]
pub enum Projection {
    Deref,
    Field { index: usize, ty: usize },
    /// An element, by the value of a local.
    Index(usize),
    ConstantIndex { offset: u64, min_length: u64, from_end: bool },
    Downcast(usize),
    /// Any other step, told apart by a number.
    Other(usize),
}

/// A local, or a part of it.
#[derive(Debug)]
pub struct Place {
    pub local: usize,
    pub projection: Vec<Projection>,
}

#[verifier::ext_equal]
pub struct PlaceModel {
    pub local: usize,
    pub projection: Seq<Projection>,
}

impl View for Place {
    type V = PlaceModel;

    open spec fn view(&self) -> PlaceModel {
        PlaceModel { local: self.local, projection: self.projection@ }
    }
}

impl Clone for Place {
    fn clone(&self) -> (result: Self)
        ensures
            result@ == self@,
    {
        let mut projection: Vec<Projection> = Vec::new();
        let mut index: usize = 0;
        while index < self.projection.len()
            invariant
                index <= self.projection@.len(),
                projection@ == self.projection@.take(index as int),
            decreases self.projection@.len() - index,
        {
            projection.push(self.projection[index]);
            proof {
                assert(self.projection@.take(index + 1) =~= self.projection@.take(
                    index as int,
                ).push(self.projection@[index as int]));
            }
            index += 1;
        }
        proof {
            assert(self.projection@.take(index as int) =~= self.projection@);
        }
        Place { local: self.local, projection }
    }
}

/// The whole of a local.
pub open spec fn whole(local: usize) -> PlaceModel {
    PlaceModel { local, projection: Seq::empty() }
}

impl Place {
    /// The whole of a local.
    pub fn of_local(local: usize) -> (result: Self)
        ensures
            result@ == whole(local),
    {
        Place { local, projection: Vec::new() }
    }

    /// Whether two places are the same.
    pub fn same(&self, other: &Place) -> (result: bool)
        ensures
            result == (self@ == other@),
    {
        if self.local != other.local || self.projection.len() != other.projection.len() {
            return false;
        }
        let mut index: usize = 0;
        while index < self.projection.len()
            invariant
                index <= self.projection@.len(),
                self.projection@.len() == other.projection@.len(),
                forall|k: int| 0 <= k < index ==> self.projection@[k] == other.projection@[k],
            decreases self.projection@.len() - index,
        {
            if self.projection[index] != other.projection[index] {
                return false;
            }
            index += 1;
        }
        proof {
            assert(self.projection@ =~= other.projection@);
        }
        true
    }
}

/// A type, as rustc prints it, and what matters of its kind.
#[derive(Debug)]
pub struct MirType {
    pub id: usize,
    pub text: String,
    pub mutable_reference: bool,
    /// Whether it is the unsigned machine word.
    pub word: bool,
}

#[verifier::ext_equal]
pub struct TypeModel {
    pub id: usize,
    pub text: Seq<char>,
    pub mutable_reference: bool,
    pub word: bool,
}

impl View for MirType {
    type V = TypeModel;

    open spec fn view(&self) -> TypeModel {
        TypeModel {
            id: self.id,
            text: self.text@,
            mutable_reference: self.mutable_reference,
            word: self.word,
        }
    }
}

/// The model of an optional type.
pub open spec fn optional_type(ty: Option<MirType>) -> Option<TypeModel> {
    match ty {
        Some(ty) => Some(ty@),
        None => None,
    }
}

/// Whether a type holds a dynamic type.
pub open spec fn contains_dyn(text: Seq<char>) -> bool {
    contains(text, "dyn "@)
}

/// Whether a type holds a dynamic type.
pub fn type_contains_dyn(ty: &MirType) -> (result: bool)
    ensures
        result == contains_dyn(ty@.text),
{
    contains_text(ty.text.as_str(), "dyn ")
}

/// Whether values of a type can carry dynamic values that its name does not
/// show: closures and coroutines.
pub open spec fn may_hide_dyn(text: Seq<char>) -> bool {
    contains(text, "{closure@"@) || contains(text, "{async closure@"@) || contains(
        text,
        "{async closure body@"@,
    ) || contains(text, "{async block@"@) || contains(text, "{coroutine@"@) || contains(
        text,
        "{generator@"@,
    )
}

/// Whether values of a type can carry dynamic values that its name does not
/// show.
pub fn type_may_hide_dyn_provenance(ty: &MirType) -> (result: bool)
    ensures
        result == may_hide_dyn(ty@.text),
{
    let text = ty.text.as_str();
    contains_text(text, "{closure@") || contains_text(text, "{async closure@") || contains_text(
        text,
        "{async closure body@",
    ) || contains_text(text, "{async block@") || contains_text(text, "{coroutine@")
        || contains_text(text, "{generator@")
}

/// Whether dynamic values can stand behind a value of a type.
pub open spec fn carries_dyn(text: Seq<char>) -> bool {
    contains_dyn(text) || may_hide_dyn(text)
}

/// Whether dynamic values can stand behind a value of a type.
pub fn type_carries_dyn(ty: &MirType) -> (result: bool)
    ensures
        result == carries_dyn(ty@.text),
{
    type_contains_dyn(ty) || type_may_hide_dyn_provenance(ty)
}

/// Whether a type is a reference or a raw pointer.
pub open spec fn is_pointer(text: Seq<char>) -> bool {
    starts_with(text, "&"@) || starts_with(text, "*const "@) || starts_with(text, "*mut "@)
}

/// Whether a type is a reference or a raw pointer.
pub fn type_is_pointer(ty: &MirType) -> (result: bool)
    ensures
        result == is_pointer(ty@.text),
{
    let text = ty.text.as_str();
    starts_with_text(text, "&") || starts_with_text(text, "*const ") || starts_with_text(
        text,
        "*mut ",
    )
}

/// Whether a type can borrow dynamic values.
pub open spec fn may_borrow_dyn(text: Seq<char>) -> bool {
    contains_dyn(text) && (is_pointer(text) || contains(text, "<'_,"@) || contains(
        text,
        "<'_, "@,
    ))
}

/// Whether a type can borrow dynamic values.
pub fn type_may_borrow_dyn(ty: &MirType) -> (result: bool)
    ensures
        result == may_borrow_dyn(ty@.text),
{
    let text = ty.text.as_str();
    type_contains_dyn(ty) && (type_is_pointer(ty) || contains_text(text, "<'_,") || contains_text(
        text,
        "<'_, ",
    ))
}

/// A type with its methods for a trait, told apart by a number.
#[derive(Debug)]
pub struct ConcreteType {
    pub id: usize,
    /// What rustc prints for the type.
    pub name: String,
}

#[verifier::ext_equal]
pub struct ConcreteModel {
    pub id: usize,
    pub name: Seq<char>,
}

impl View for ConcreteType {
    type V = ConcreteModel;

    open spec fn view(&self) -> ConcreteModel {
        ConcreteModel { id: self.id, name: self.name@ }
    }
}

impl Clone for ConcreteType {
    fn clone(&self) -> (result: Self)
        ensures
            result@ == self@,
    {
        ConcreteType { id: self.id, name: self.name.clone() }
    }
}

/// What is known of a constant.
#[derive(Clone, Copy, Debug, PartialEq, Eq, Structural)]
pub enum ConstantKind {
    ZeroSized,
    /// Bytes, with so many pointers among them.
    Allocated { pointers: usize },
    /// A constant that is not evaluated.
    Symbolic,
}

/// What is read by a statement or handed to a call.
#[derive(Debug)]
pub enum OperandValue {
    Place(Place),
    Constant { kind: ConstantKind, word: Option<u64> },
    RuntimeCheck,
}

pub enum OperandValueModel {
    Place(PlaceModel),
    Constant { kind: ConstantKind, word: Option<u64> },
    RuntimeCheck,
}

impl View for OperandValue {
    type V = OperandValueModel;

    open spec fn view(&self) -> OperandValueModel {
        match self {
            OperandValue::Place(place) => OperandValueModel::Place(place@),
            OperandValue::Constant { kind, word } => OperandValueModel::Constant {
                kind: *kind,
                word: *word,
            },
            OperandValue::RuntimeCheck => OperandValueModel::RuntimeCheck,
        }
    }
}

/// What is read by a statement or handed to a call, with its type.
#[derive(Debug)]
pub struct Operand {
    pub value: OperandValue,
    pub ty: Option<MirType>,
}

#[verifier::ext_equal]
pub struct OperandModel {
    pub value: OperandValueModel,
    pub ty: Option<TypeModel>,
}

impl View for Operand {
    type V = OperandModel;

    open spec fn view(&self) -> OperandModel {
        OperandModel { value: self.value@, ty: optional_type(self.ty) }
    }
}

/// Whether an optional type holds a dynamic type.
pub open spec fn is_dyn(ty: Option<TypeModel>) -> bool {
    match ty {
        Some(ty) => contains_dyn(ty.text),
        None => false,
    }
}

/// Whether an optional type holds a dynamic type.
pub fn holds_dyn(ty: &Option<MirType>) -> (result: bool)
    ensures
        result == is_dyn(optional_type(*ty)),
{
    match ty {
        Some(ty) => type_contains_dyn(ty),
        None => false,
    }
}

/// What an aggregate builds.
#[derive(Clone, Copy, Debug, PartialEq, Eq, Structural)]
pub enum AggregateKind {
    Tuple,
    Struct,
    /// A variant of an enum.
    Variant(usize),
    Array,
    /// A coroutine that rustc resolved to an instance.
    Coroutine(usize),
    Other,
}

/// What a statement computes.
#[derive(Debug)]
pub enum Rvalue {
    Use(Operand),
    Repeat(Operand),
    /// A value becomes one of a dynamic type; `concrete` is what rustc knows
    /// of the type that it had.
    Unsize { operand: Operand, concrete: Option<ConcreteType> },
    Cast(Operand),
    Ref(Place),
    Aggregate { kind: AggregateKind, operands: Vec<Operand> },
    Binary(Operand, Operand),
    Unary(Operand),
    /// A value without parts that could be dynamic.
    Plain,
}

pub enum RvalueModel {
    Use(OperandModel),
    Repeat(OperandModel),
    Unsize { operand: OperandModel, concrete: Option<ConcreteModel> },
    Cast(OperandModel),
    Ref(PlaceModel),
    Aggregate { kind: AggregateKind, operands: Seq<OperandModel> },
    Binary(OperandModel, OperandModel),
    Unary(OperandModel),
    Plain,
}

/// The model of an optional concrete type.
pub open spec fn optional_concrete(concrete: Option<ConcreteType>) -> Option<ConcreteModel> {
    match concrete {
        Some(concrete) => Some(concrete@),
        None => None,
    }
}

impl View for Rvalue {
    type V = RvalueModel;

    open spec fn view(&self) -> RvalueModel {
        match self {
            Rvalue::Use(operand) => RvalueModel::Use(operand@),
            Rvalue::Repeat(operand) => RvalueModel::Repeat(operand@),
            Rvalue::Unsize { operand, concrete } => RvalueModel::Unsize {
                operand: operand@,
                concrete: optional_concrete(*concrete),
            },
            Rvalue::Cast(operand) => RvalueModel::Cast(operand@),
            Rvalue::Ref(place) => RvalueModel::Ref(place@),
            Rvalue::Aggregate { kind, operands } => RvalueModel::Aggregate {
                kind: *kind,
                operands: views(operands@),
            },
            Rvalue::Binary(left, right) => RvalueModel::Binary(left@, right@),
            Rvalue::Unary(operand) => RvalueModel::Unary(operand@),
            Rvalue::Plain => RvalueModel::Plain,
        }
    }
}

/// A statement that assigns a value of a type to a place.
#[derive(Debug)]
pub struct Assignment {
    pub destination: Place,
    pub value: Rvalue,
    pub ty: Option<MirType>,
}

#[verifier::ext_equal]
pub struct AssignmentModel {
    pub destination: PlaceModel,
    pub value: RvalueModel,
    pub ty: Option<TypeModel>,
}

impl View for Assignment {
    type V = AssignmentModel;

    open spec fn view(&self) -> AssignmentModel {
        AssignmentModel {
            destination: self.destination@,
            value: self.value@,
            ty: optional_type(self.ty),
        }
    }
}

/// The instance that a call is resolved to.
#[derive(Clone, Copy, Debug, PartialEq, Eq, Structural)]
pub struct Callee {
    pub instance: usize,
    /// Whether the instance is the entry of a method table.
    pub is_virtual: bool,
}

/// A call at the end of a block.
#[derive(Debug)]
pub struct CallTerminator {
    pub callee: Option<Callee>,
    pub arguments: Vec<Operand>,
    pub destination: Place,
    pub destination_type: Option<MirType>,
    /// The block that follows when the call returns.
    pub target: Option<usize>,
    pub successors: Vec<usize>,
}

#[verifier::ext_equal]
pub struct CallTerminatorModel {
    pub callee: Option<Callee>,
    pub arguments: Seq<OperandModel>,
    pub destination: PlaceModel,
    pub destination_type: Option<TypeModel>,
    pub target: Option<usize>,
    pub successors: Seq<usize>,
}

impl View for CallTerminator {
    type V = CallTerminatorModel;

    open spec fn view(&self) -> CallTerminatorModel {
        CallTerminatorModel {
            callee: self.callee,
            arguments: views(self.arguments@),
            destination: self.destination@,
            destination_type: optional_type(self.destination_type),
            target: self.target,
            successors: self.successors@,
        }
    }
}

/// How a block ends.
#[derive(Debug)]
pub enum Terminator {
    Call(CallTerminator),
    Return,
    Jump { successors: Vec<usize> },
}

pub enum TerminatorModel {
    Call(CallTerminatorModel),
    Return,
    Jump { successors: Seq<usize> },
}

impl View for Terminator {
    type V = TerminatorModel;

    open spec fn view(&self) -> TerminatorModel {
        match self {
            Terminator::Call(call) => TerminatorModel::Call(call@),
            Terminator::Return => TerminatorModel::Return,
            Terminator::Jump { successors } => TerminatorModel::Jump { successors: successors@ },
        }
    }
}

/// A stretch of a body without jumps.
#[derive(Debug)]
pub struct MirBlock {
    pub assignments: Vec<Assignment>,
    pub terminator: Terminator,
}

#[verifier::ext_equal]
pub struct BlockModel {
    pub assignments: Seq<AssignmentModel>,
    pub terminator: TerminatorModel,
}

impl View for MirBlock {
    type V = BlockModel;

    open spec fn view(&self) -> BlockModel {
        BlockModel { assignments: views(self.assignments@), terminator: self.terminator@ }
    }
}

/// The body of a function instance.
#[derive(Debug)]
pub struct MirBody {
    pub blocks: Vec<MirBlock>,
    pub locals: usize,
    pub argument_types: Vec<MirType>,
    pub return_type: MirType,
}

#[verifier::ext_equal]
pub struct BodyModel {
    pub blocks: Seq<BlockModel>,
    pub locals: usize,
    pub argument_types: Seq<TypeModel>,
    pub return_type: TypeModel,
}

impl View for MirBody {
    type V = BodyModel;

    open spec fn view(&self) -> BodyModel {
        BodyModel {
            blocks: views(self.blocks@),
            locals: self.locals,
            argument_types: views(self.argument_types@),
            return_type: self.return_type@,
        }
    }
}

/// The blocks that can follow the end of a block.
pub open spec fn successors_of(terminator: TerminatorModel) -> Seq<usize> {
    match terminator {
        TerminatorModel::Call(call) => call.successors,
        TerminatorModel::Return => Seq::empty(),
        TerminatorModel::Jump { successors } => successors,
    }
}

/// Whether each block is followed by blocks of the body only.
pub open spec fn well_formed_body(body: BodyModel) -> bool {
    forall|block: int, place: int|
        0 <= block < body.blocks.len() && 0 <= place < successors_of(
            body.blocks[block].terminator,
        ).len() ==> #[trigger] successors_of(body.blocks[block].terminator)[place]
            < body.blocks.len()
}

} // verus!

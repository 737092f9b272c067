//! What a project holds, and what compilers and the file system say of it.
use crate::files::KnownFile;
use crate::lists::views;
use crate::ocaml::events::{EventModel, TypedCallEvent};
use crate::paths::SourcePath;
use crate::rust::semantic::{ProgramModel, SemanticProgram};
use vstd::prelude::*;

verus! {

/// The models of events that may be missing.
pub open spec fn events_of(events: Option<Vec<TypedCallEvent>>) -> Option<Seq<EventModel>> {
    match events {
        Some(events) => Some(views(events@)),
        None => None,
    }
}

/// A source of a project, with what the compiler says of it.
#[derive(Debug)]
pub struct SourceText {
    pub path: SourcePath,
    pub text: String,
    /// What the compiler says of this source alone, if it could be asked.
    pub events: Option<Vec<TypedCallEvent>>,
}

pub struct SourceTextModel {
    pub path: Seq<char>,
    pub text: Seq<char>,
    pub events: Option<Seq<EventModel>>,
}

impl View for SourceText {
    type V = SourceTextModel;

    open spec fn view(&self) -> SourceTextModel {
        SourceTextModel { path: self.path@, text: self.text@, events: events_of(self.events) }
    }
}

/// What compilers say of a file or of a project, and which places are known to
/// be the same.
#[derive(Debug)]
pub struct CompilerFindings {
    /// What the OCaml compiler says of the whole, if it could be asked.
    pub events: Option<Vec<TypedCallEvent>>,
    /// What rustc says of the targets.
    pub programs: Vec<SemanticProgram>,
    pub known: Vec<KnownFile>,
}

pub struct CompilerModel {
    pub events: Option<Seq<EventModel>>,
    pub programs: Seq<ProgramModel>,
    pub known: Seq<(Seq<char>, Seq<char>)>,
}

impl View for CompilerFindings {
    type V = CompilerModel;

    open spec fn view(&self) -> CompilerModel {
        CompilerModel {
            events: events_of(self.events),
            programs: views(self.programs@),
            known: views(self.known@),
        }
    }
}

} // verus!

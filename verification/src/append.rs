//! Putting the analyses of several sources together.
use crate::lists::views;
use crate::model::{path_models, AnalysisModel, SemanticCallGraph};
use crate::ocaml::callable::{add_symbol, with_symbols};
use crate::sets::{insert_path, with_paths};
use vstd::prelude::*;

verus! {

/// Two analyses in one. Files and roots that both have are there once.
pub open spec fn appended(left: AnalysisModel, right: AnalysisModel) -> AnalysisModel {
    AnalysisModel {
        functions: left.functions + right.functions,
        facts: left.facts + right.facts,
        source_files: with_paths(
            left.source_files,
            right.source_files,
            right.source_files.len(),
        ),
        roots: with_symbols(left.roots, right.roots, right.roots.len() as int),
    }
}

impl SemanticCallGraph {
    /// Adds what another analysis found.
    pub fn append(&mut self, more: SemanticCallGraph)
        ensures
            final(self)@ == appended(old(self)@, more@),
    {
        let ghost before = self@;
        let ghost added = more@;
        let mut functions = more.functions;
        let mut facts = more.facts;
        self.functions.append(&mut functions);
        self.facts.append(&mut facts);
        let mut index: usize = 0;
        proof {
            assert(self@.functions =~= before.functions + added.functions);
            assert(self@.facts =~= before.facts + added.facts);
            assert(added.source_files.len() == more.source_files@.len());
        }
        while index < more.source_files.len()
            invariant
                index <= more.source_files@.len(),
                added.source_files == path_models(more.source_files@),
                self@.functions == before.functions + added.functions,
                self@.facts == before.facts + added.facts,
                self@.roots == before.roots,
                self@.source_files == with_paths(
                    before.source_files,
                    added.source_files,
                    index as nat,
                ),
            decreases more.source_files@.len() - index,
        {
            proof {
                assert(added.source_files[index as int] == more.source_files@[index as int]@);
            }
            insert_path(&mut self.source_files, more.source_files[index].clone());
            index += 1;
        }
        let mut next: usize = 0;
        proof {
            assert(views(self.roots@) =~= before.roots);
            assert(views(more.roots@) =~= added.roots);
            assert(added.roots.len() == more.roots@.len());
        }
        while next < more.roots.len()
            invariant
                next <= more.roots@.len(),
                added.roots == views(more.roots@),
                self@.functions == before.functions + added.functions,
                self@.facts == before.facts + added.facts,
                self@.source_files == with_paths(
                    before.source_files,
                    added.source_files,
                    added.source_files.len(),
                ),
                views(self.roots@) == with_symbols(before.roots, added.roots, next as int),
            decreases more.roots@.len() - next,
        {
            proof {
                assert(added.roots[next as int] == more.roots@[next as int]@);
            }
            add_symbol(&mut self.roots, more.roots[next].clone());
            next += 1;
        }
        proof {
            assert(self@.roots =~= views(self.roots@));
        }
    }
}

} // verus!

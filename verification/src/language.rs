//! The languages whose sources can be analyzed.
use crate::findings::{CompilerFindings, CompilerModel, SourceText, SourceTextModel};
use crate::lists::views;
use crate::model::{AnalysisModel, FileAnalysis, LanguageId};
use crate::ocaml::analyze::{
    analysis_result, analyze_ocaml_file, analyze_semantic_project, analyze_source_project, file_analysis,
    ocaml_error_text, project_analysis, OcamlError, OcamlErrorModel,
};
use crate::paths::{extension_of, optional_path, SourcePath};
use crate::rust::extract::{analyze_rust_items, source_analysis};
use crate::rust::project::{capture_semantic_project, captured_analysis};
use crate::rust::session::{
    analysis_outcome, analyze_project_sources, is_one_name, kept_target, sources_analysis,
    RustProjectSession,
};
use crate::rust::syntax::{parse_items, rust_items};
use crate::text::{concat_texts, lower_text, lowered, optional, same_text, texts};
use vstd::prelude::*;

verus! {

/// A source file, and the module that it holds.
#[derive(Debug)]
pub struct FileContext<'a> {
    pub path: &'a SourcePath,
    pub module: &'a Vec<String>,
}

/// A project to analyze.
#[derive(Debug)]
pub struct ProjectContext<'a> {
    pub root: &'a SourcePath,
    /// The program that a compiler runs in place of itself.
    pub driver_executable: Option<&'a SourcePath>,
    pub entries: &'a Vec<String>,
    pub cache: Option<ProjectCache<'a>>,
}

/// Where the analysis of one side of a comparison is kept.
#[derive(Clone, Copy, Debug)]
pub struct ProjectCache<'a> {
    pub project_root: &'a SourcePath,
    pub endpoint: &'a str,
    pub verbose: bool,
}

/// A language: its name, the extensions of its files, and how its files and
/// projects are analyzed. What only a compiler can say comes in as findings.
pub trait LanguageBackend {
    spec fn language_name(&self) -> Seq<char>;

    spec fn extension_names(&self) -> Seq<Seq<char>>;

    /// The analysis of a file, or why there is none.
    spec fn file_outcome(
        &self,
        path: Seq<char>,
        module: Seq<Seq<char>>,
        source: Seq<char>,
        findings: CompilerModel,
    ) -> Result<AnalysisModel, Seq<char>>;

    /// The analysis of a project, or why there is none.
    spec fn project_outcome(
        &self,
        root: Seq<char>,
        has_driver: bool,
        sources: Seq<SourceTextModel>,
        findings: CompilerModel,
    ) -> Result<AnalysisModel, Seq<char>>;

    /// The name of the language.
    fn language(&self) -> (result: LanguageId)
        ensures
            result@ == self.language_name(),
    ;

    /// The extensions of its files.
    fn extensions(&self) -> (result: Vec<String>)
        ensures
            texts(result@) == self.extension_names(),
    ;

    /// Analyzes a file.
    fn analyze_file(&self, context: &FileContext, source: &str, findings: &CompilerFindings)
        -> (result: Result<FileAnalysis, String>)
        ensures
            analysis_outcome(result) == self.file_outcome(
                context.path@,
                texts(context.module@),
                source@,
                findings@,
            ),
    ;

    /// Analyzes a project by its sources.
    fn analyze_project(
        &self,
        context: &ProjectContext,
        sources: &Vec<SourceText>,
        findings: &CompilerFindings,
    ) -> (result: Result<FileAnalysis, String>)
        ensures
            analysis_outcome(result) == self.project_outcome(
                context.root@,
                context.driver_executable is Some,
                views(sources@),
                findings@,
            ),
    ;
}

/// What is said without a program that rustc runs in place of itself.
pub open spec fn missing_driver() -> Seq<char> {
    "Rust project analysis requires a driver executable"@
}

/// What is said of a Rust project of which rustc says nothing.
pub open spec fn missing_targets(root: Seq<char>) -> Seq<char> {
    "Cargo produced no Rust semantic targets under "@ + root
}

/// The analysis of an OCaml source, or what is said where there is none.
pub open spec fn ocaml_outcome(result: Result<AnalysisModel, OcamlErrorModel>) -> Result<
    AnalysisModel,
    Seq<char>,
> {
    match result {
        Ok(analysis) => Ok(analysis),
        Err(error) => Err(ocaml_error_text(error)),
    }
}

fn tell_error(result: Result<FileAnalysis, OcamlError>) -> (told: Result<FileAnalysis, String>)
    ensures
        analysis_outcome(told) == ocaml_outcome(analysis_result(result)),
{
    match result {
        Ok(analysis) => Ok(analysis),
        Err(error) => Err(error.to_text()),
    }
}

#[derive(Clone, Copy, Debug, PartialEq, Eq, Structural)]
pub struct RustBackend;

#[derive(Clone, Copy, Debug, PartialEq, Eq, Structural)]
pub struct OcamlFrontend;

impl Default for RustBackend {
    fn default() -> (result: Self)
        ensures
            result == RustBackend,
    {
        RustBackend
    }
}

impl Default for OcamlFrontend {
    fn default() -> (result: Self)
        ensures
            result == OcamlFrontend,
    {
        OcamlFrontend
    }
}

impl LanguageBackend for RustBackend {
    open spec fn language_name(&self) -> Seq<char> {
        "rust"@
    }

    open spec fn extension_names(&self) -> Seq<Seq<char>> {
        seq!["rs"@]
    }

    fn language(&self) -> (result: LanguageId) {
        LanguageId::new("rust")
    }

    fn extensions(&self) -> (result: Vec<String>) {
        let mut result: Vec<String> = Vec::new();
        result.push("rs".to_owned());
        proof {
            assert(texts(result@) =~= seq!["rs"@]);
        }
        result
    }

    /// What the syntax of a file says: where it is no Rust source, what the
    /// parser says of it.
    open spec fn file_outcome(
        &self,
        path: Seq<char>,
        module: Seq<Seq<char>>,
        source: Seq<char>,
        findings: CompilerModel,
    ) -> Result<AnalysisModel, Seq<char>> {
        match rust_items(source) {
            Ok(items) => Ok(source_analysis(path, module, items)),
            Err(message) => Err(message),
        }
    }

    /// What rustc says of the targets of a project, merged with what its
    /// sources say.
    open spec fn project_outcome(
        &self,
        root: Seq<char>,
        has_driver: bool,
        sources: Seq<SourceTextModel>,
        findings: CompilerModel,
    ) -> Result<AnalysisModel, Seq<char>> {
        if !has_driver {
            Err(missing_driver())
        } else {
            match sources_analysis(root, sources, sources.len() as int) {
                Ok(syntax) => match captured_analysis(findings.programs, syntax, findings.known) {
                    Some(analysis) => Ok(analysis),
                    None => Err(missing_targets(root)),
                },
                Err(message) => Err(message),
            }
        }
    }

    fn analyze_file(&self, context: &FileContext, source: &str, findings: &CompilerFindings)
        -> (result: Result<FileAnalysis, String>) {
        match parse_items(source) {
            Ok(items) => Ok(analyze_rust_items(context.path, context.module, &items)),
            Err(message) => Err(message),
        }
    }

    fn analyze_project(
        &self,
        context: &ProjectContext,
        sources: &Vec<SourceText>,
        findings: &CompilerFindings,
    ) -> (result: Result<FileAnalysis, String>) {
        if context.driver_executable.is_none() {
            return Err("Rust project analysis requires a driver executable".to_owned());
        }
        proof {
            assert(views(sources@).len() == sources@.len());
        }
        let syntax = match analyze_project_sources(context.root, sources) {
            Ok(syntax) => syntax,
            Err(message) => {
                return Err(message);
            },
        };
        match capture_semantic_project(&findings.programs, syntax, &findings.known) {
            Some(analysis) => Ok(analysis),
            None => Err(
                concat_texts(
                    "Cargo produced no Rust semantic targets under ",
                    context.root.text.as_str(),
                ),
            ),
        }
    }
}

impl LanguageBackend for OcamlFrontend {
    open spec fn language_name(&self) -> Seq<char> {
        "ocaml"@
    }

    open spec fn extension_names(&self) -> Seq<Seq<char>> {
        seq!["ml"@, "mli"@]
    }

    fn language(&self) -> (result: LanguageId) {
        LanguageId::new("ocaml")
    }

    fn extensions(&self) -> (result: Vec<String>) {
        let mut result: Vec<String> = Vec::new();
        result.push("ml".to_owned());
        result.push("mli".to_owned());
        proof {
            assert(texts(result@) =~= seq!["ml"@, "mli"@]);
        }
        result
    }

    /// What the syntax of a file says, with what the compiler says of it where
    /// it accepts the file.
    open spec fn file_outcome(
        &self,
        path: Seq<char>,
        module: Seq<Seq<char>>,
        source: Seq<char>,
        findings: CompilerModel,
    ) -> Result<AnalysisModel, Seq<char>> {
        ocaml_outcome(file_analysis(path, module, source, findings.events, findings.known))
    }

    /// What the sources of a project say. What the compiler says of the whole
    /// is there where the project is one of Dune.
    open spec fn project_outcome(
        &self,
        root: Seq<char>,
        has_driver: bool,
        sources: Seq<SourceTextModel>,
        findings: CompilerModel,
    ) -> Result<AnalysisModel, Seq<char>> {
        ocaml_outcome(project_analysis(root, sources, findings.events, findings.known))
    }

    fn analyze_file(&self, context: &FileContext, source: &str, findings: &CompilerFindings)
        -> (result: Result<FileAnalysis, String>) {
        let events = match &findings.events {
            Some(events) => Some(events),
            None => None,
        };
        tell_error(
            analyze_ocaml_file(context.path, context.module, source, events, &findings.known),
        )
    }

    fn analyze_project(
        &self,
        context: &ProjectContext,
        sources: &Vec<SourceText>,
        findings: &CompilerFindings,
    ) -> (result: Result<FileAnalysis, String>) {
        match &findings.events {
            Some(events) => tell_error(
                analyze_semantic_project(context.root, sources, events, &findings.known),
            ),
            None => tell_error(analyze_source_project(context.root, sources, &findings.known)),
        }
    }
}

impl RustBackend {
    /// The directory that Cargo builds a project in: one that is kept where
    /// the project has a cache, `temporary` otherwise. Fails without a program
    /// that rustc runs in place of itself.
    pub fn project_session(&self, context: &ProjectContext, temporary: SourcePath) -> (result: Result<
        RustProjectSession,
        String,
    >)
        ensures
            match result {
                Ok(session) => context.driver_executable is Some && match context.cache {
                    Some(cache) => is_one_name(cache.endpoint@) && session.target@ == kept_target(
                        cache.project_root@,
                        cache.endpoint@,
                    ) && session.cleanup is None && optional(session.endpoint) == Some(
                        cache.endpoint@,
                    ) && session.verbose == cache.verbose,
                    None => session.target@ == crate::paths::path_behind(
                        temporary@,
                        "target"@,
                    ) && optional_path(session.cleanup) == Some(temporary@)
                        && session.endpoint is None && !session.verbose,
                },
                Err(message) => if context.driver_executable is None {
                    message@ == missing_driver()
                } else {
                    context.cache is Some && !is_one_name(context.cache.unwrap().endpoint@)
                        && message@ == "Rust semantic cache endpoint must be one path component"@
                },
            },
    {
        if context.driver_executable.is_none() {
            return Err("Rust project analysis requires a driver executable".to_owned());
        }
        match &context.cache {
            Some(cache) => RustProjectSession::create_cached(
                cache.project_root,
                cache.endpoint,
                cache.verbose,
            ),
            None => Ok(RustProjectSession::create(temporary)),
        }
    }
}

/// One of the languages.
#[derive(Clone, Copy, Debug, PartialEq, Eq, Structural)]
pub enum Backend {
    Rust,
    Ocaml,
}

impl LanguageBackend for Backend {
    open spec fn language_name(&self) -> Seq<char> {
        match self {
            Backend::Rust => RustBackend.language_name(),
            Backend::Ocaml => OcamlFrontend.language_name(),
        }
    }

    open spec fn extension_names(&self) -> Seq<Seq<char>> {
        match self {
            Backend::Rust => RustBackend.extension_names(),
            Backend::Ocaml => OcamlFrontend.extension_names(),
        }
    }

    fn language(&self) -> (result: LanguageId) {
        match self {
            Backend::Rust => RustBackend.language(),
            Backend::Ocaml => OcamlFrontend.language(),
        }
    }

    fn extensions(&self) -> (result: Vec<String>) {
        match self {
            Backend::Rust => RustBackend.extensions(),
            Backend::Ocaml => OcamlFrontend.extensions(),
        }
    }

    open spec fn file_outcome(
        &self,
        path: Seq<char>,
        module: Seq<Seq<char>>,
        source: Seq<char>,
        findings: CompilerModel,
    ) -> Result<AnalysisModel, Seq<char>> {
        match self {
            Backend::Rust => RustBackend.file_outcome(path, module, source, findings),
            Backend::Ocaml => OcamlFrontend.file_outcome(path, module, source, findings),
        }
    }

    open spec fn project_outcome(
        &self,
        root: Seq<char>,
        has_driver: bool,
        sources: Seq<SourceTextModel>,
        findings: CompilerModel,
    ) -> Result<AnalysisModel, Seq<char>> {
        match self {
            Backend::Rust => RustBackend.project_outcome(root, has_driver, sources, findings),
            Backend::Ocaml => OcamlFrontend.project_outcome(root, has_driver, sources, findings),
        }
    }

    fn analyze_file(&self, context: &FileContext, source: &str, findings: &CompilerFindings)
        -> (result: Result<FileAnalysis, String>) {
        match self {
            Backend::Rust => RustBackend.analyze_file(context, source, findings),
            Backend::Ocaml => OcamlFrontend.analyze_file(context, source, findings),
        }
    }

    fn analyze_project(
        &self,
        context: &ProjectContext,
        sources: &Vec<SourceText>,
        findings: &CompilerFindings,
    ) -> (result: Result<FileAnalysis, String>) {
        match self {
            Backend::Rust => RustBackend.analyze_project(context, sources, findings),
            Backend::Ocaml => OcamlFrontend.analyze_project(context, sources, findings),
        }
    }
}

/// The languages, in the order in which they are asked.
pub open spec fn backends() -> Seq<Backend> {
    seq![Backend::Rust, Backend::Ocaml]
}

/// The languages, in the order in which they are asked.
pub fn builtin_backends() -> (result: Vec<Backend>)
    ensures
        result@ == backends(),
{
    let mut result: Vec<Backend> = Vec::new();
    result.push(Backend::Rust);
    result.push(Backend::Ocaml);
    proof {
        assert(result@ =~= backends());
    }
    result
}

/// Whether a text is among some, whatever the case of ASCII letters.
pub open spec fn is_among(values: Seq<Seq<char>>, value: Seq<char>) -> bool {
    exists|k: int| 0 <= k < values.len() && lowered(#[trigger] values[k]) == lowered(value)
}

fn among(values: &Vec<String>, value: &str) -> (result: bool)
    ensures
        result == is_among(texts(values@), value@),
{
    let ghost model = texts(values@);
    let wanted = lower_text(value);
    let mut index: usize = 0;
    while index < values.len()
        invariant
            index <= values@.len(),
            model == texts(values@),
            wanted@ == lowered(value@),
            forall|k: int| 0 <= k < index ==> lowered(#[trigger] model[k]) != lowered(value@),
        decreases values@.len() - index,
    {
        proof {
            assert(model[index as int] == values@[index as int]@);
        }
        if same_text(lower_text(values[index].as_str()).as_str(), wanted.as_str()) {
            return true;
        }
        index += 1;
    }
    false
}

/// The first language from `index` on whose files have an extension.
pub open spec fn extension_backend(extension: Seq<char>, index: int) -> Option<Backend>
    decreases backends().len() - index,
{
    if index < 0 || index >= backends().len() {
        None
    } else if is_among(backends()[index].extension_names(), extension) {
        Some(backends()[index])
    } else {
        extension_backend(extension, index + 1)
    }
}

/// The language of a file, by its extension in any case.
pub open spec fn backend_of_file(path: Seq<char>) -> Option<Backend> {
    match extension_of(path) {
        Some(extension) => extension_backend(extension, 0),
        None => None,
    }
}

/// The language of a file, by its extension in any case.
pub fn backend_for_extension(path: &SourcePath) -> (result: Option<Backend>)
    ensures
        result == backend_of_file(path@),
{
    let extension = match path.extension() {
        Some(extension) => extension,
        None => {
            return None;
        },
    };
    let all = builtin_backends();
    let mut index: usize = 0;
    while index < all.len()
        invariant
            index <= all@.len(),
            all@ == backends(),
            extension_of(path@) == Some(extension@),
            extension_backend(extension@, index as int) == extension_backend(extension@, 0),
        decreases all@.len() - index,
    {
        let backend: Backend = all[index];
        if among(&backend.extensions(), extension.as_str()) {
            return Some(backend);
        }
        index += 1;
    }
    None
}

/// The first language from `index` on of a name.
pub open spec fn named_backend(language: Seq<char>, index: int) -> Option<Backend>
    decreases backends().len() - index,
{
    if index < 0 || index >= backends().len() {
        None
    } else if lowered(backends()[index].language_name()) == lowered(language) {
        Some(backends()[index])
    } else {
        named_backend(language, index + 1)
    }
}

/// The language of a name, in any case.
pub fn backend_for_language(language: &str) -> (result: Option<Backend>)
    ensures
        result == named_backend(language@, 0),
{
    let wanted = lower_text(language);
    let all = builtin_backends();
    let mut index: usize = 0;
    while index < all.len()
        invariant
            index <= all@.len(),
            all@ == backends(),
            wanted@ == lowered(language@),
            named_backend(language@, index as int) == named_backend(language@, 0),
        decreases all@.len() - index,
    {
        let backend: Backend = all[index];
        if same_text(lower_text(backend.language().0.as_str()).as_str(), wanted.as_str()) {
            return Some(backend);
        }
        index += 1;
    }
    None
}

/// Every language is found by its own name, and each of its extensions leads
/// to it.
pub proof fn languages_are_found(backend: Backend)
    ensures
        named_backend(backend.language_name(), 0) == Some(backend),
        forall|k: int|
            0 <= k < backend.extension_names().len() ==> extension_backend(
                #[trigger] backend.extension_names()[k],
                0,
            ) == Some(backend),
{
    reveal_strlit("rust");
    reveal_strlit("ocaml");
    reveal_strlit("rs");
    reveal_strlit("ml");
    reveal_strlit("mli");
    reveal_with_fuel(named_backend, 3);
    reveal_with_fuel(extension_backend, 3);
    let rust = RustBackend.extension_names();
    assert(lowered("rust"@).len() == 4);
    assert(lowered("ocaml"@).len() == 5);
    assert(lowered("rs"@)[0] == 'r');
    assert(lowered("ml"@)[0] == 'm');
    assert(lowered("mli"@)[0] == 'm');
    assert forall|k: int| 0 <= k < backend.extension_names().len() implies extension_backend(
        #[trigger] backend.extension_names()[k],
        0,
    ) == Some(backend) by {
        let extension = backend.extension_names()[k];
        assert(rust.len() == 1 && rust[0] == "rs"@);
        assert(is_among(backend.extension_names(), extension));
        if backend == Backend::Ocaml {
            assert(lowered(extension)[0] == 'm');
            assert(!is_among(rust, extension));
            assert(backends()[1] == Backend::Ocaml);
        }
        assert(backends()[0] == Backend::Rust);
    }
}

} // verus!

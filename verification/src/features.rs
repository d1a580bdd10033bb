//! Compiling the features of a font into binary tables.

use vstd::prelude::*;

verus! {

/// How grave a message of the feature compiler is.
#[derive(Clone, Copy, Debug, PartialEq, Eq, Structural)]
pub enum Level {
    Info,
    Warning,
    Error,
}

/// A message of the feature compiler about the source that it was given.
#[derive(Debug)]
pub struct Diagnostic {
    pub level: Level,
    pub text: String,
}

impl Diagnostic {
    /// Whether the message reports an error.
    pub open spec fn spec_is_error(&self) -> bool {
        self.level == Level::Error
    }

    /// See [`Diagnostic::spec_is_error`].
    pub fn is_error(&self) -> (error: bool)
        ensures
            error == self.spec_is_error(),
    {
        self.level == Level::Error
    }
}

/// Why a step of the build failed.
#[derive(Debug)]
pub enum Error {
    /// The features could not be compiled.
    FeaError(String),
}

/// The step of a build that compiles a font's feature source.
#[derive(Debug)]
pub struct FeatureWork {
    build_dir: String,
}

impl FeatureWork {
    /// The work of compiling features, with `build_dir` as the directory that
    /// included files are looked up in.
    pub fn create(build_dir: &str) -> (work: Box<FeatureWork>)
        ensures
            work.spec_build_dir() == build_dir@,
    {
        Box::new(FeatureWork { build_dir: build_dir.to_owned() })
    }

    /// The directory that included files are looked up in.
    pub closed spec fn spec_build_dir(&self) -> Seq<char> {
        self.build_dir@
    }

    /// See [`FeatureWork::spec_build_dir`].
    pub fn build_dir(&self) -> (dir: &str)
        ensures
            dir@ == self.spec_build_dir(),
    {
        self.build_dir.as_str()
    }
}

/// One of the messages reports an error.
pub open spec fn any_error(diagnostics: Seq<Diagnostic>) -> bool {
    exists|i: int| 0 <= i < diagnostics.len() && (#[trigger] diagnostics[i]).spec_is_error()
}

/// What is reported when the step `op` on `feature_source` has failed.
pub open spec fn failure(feature_source: Seq<char>, op: Seq<char>) -> Seq<char> {
    feature_source + " "@ + op + " failed"@
}

/// Decides from the messages of the step `op` on `feature_source` whether the
/// step has failed: it has if one message reports an error.
pub fn check_diagnostics(feature_source: &str, op: &str, diagnostics: &Vec<Diagnostic>) -> (result:
    Result<(), Error>)
    ensures
        result.is_err() == any_error(diagnostics@),
        result matches Err(Error::FeaError(text)) ==> text@ == failure(feature_source@, op@),
{
    let mut i: usize = 0;
    while i < diagnostics.len()
        invariant
            i <= diagnostics.len(),
            forall|k: int| 0 <= k < i ==> !(#[trigger] diagnostics@[k]).spec_is_error(),
        decreases diagnostics.len() - i,
    {
        if diagnostics[i].is_error() {
            let mut text = feature_source.to_owned();
            text.append(" ");
            text.append(op);
            text.append(" failed");
            return Err(Error::FeaError(text));
        }
        i += 1;
    }
    Ok(())
}

} // verus!

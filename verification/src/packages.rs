//! Simulation packages: the task that initialises the state from a
//! JavaScript source, and how the analysis package finds its source.

use vstd::prelude::*;

verus! {

/// `serde_json::Value`: a JSON value. Nothing of its inside is visible here.
#[verifier::external_type_specification]
#[verifier::external_body]
pub struct ExJsonValue(serde_json::Value);

/// The text of a JSON value that is a string, `None` for any other value:
/// what `serde_json::Value::as_str` returns.
pub uninterp spec fn json_text(value: serde_json::Value) -> Option<Seq<char>>;

/// Calls `serde_json::Value::as_str`, which returns the text of a value of
/// the variant `String` and `None` for every other variant, and copies the
/// text.
#[verifier::external_body]
fn text_of(value: &serde_json::Value) -> (r: Option<String>)
    ensures
        (match r {
            Some(s) => Some(s@),
            None => None,
        }) == json_text(*value),
{
    value.as_str().map(str::to_owned)
}

/// Who runs a task.
#[derive(Debug, Clone, Copy, PartialEq, Eq, Structural)]
pub enum MessageTarget {
    Rust,
    Python,
    JavaScript,
    Dynamic,
    Main,
}

/// What starts the initialisation of the state: the source to run.
#[derive(Debug, Clone)]
pub struct StartMessage {
    pub initial_state_source: String,
}

/// A message to the runner that is to start a task.
#[derive(Debug, Clone)]
pub struct TargetedTaskMessage {
    pub target: MessageTarget,
    pub payload: StartMessage,
}

/// The task that initialises the state from a JavaScript source.
#[derive(Clone, Debug)]
pub struct JsInitTask {
    pub initial_state_source: String,
}

impl JsInitTask {
    /// The message that starts the task: it goes to the JavaScript runner
    /// and carries the task's source.
    pub fn start_message(&self) -> (r: TargetedTaskMessage)
        ensures
            r.target == MessageTarget::JavaScript,
            r.payload.initial_state_source@ == self.initial_state_source@,
    {
        TargetedTaskMessage {
            target: MessageTarget::JavaScript,
            payload: StartMessage { initial_state_source: self.initial_state_source.clone() },
        }
    }
}

/// The arguments of a simulation package: its name and its data.
pub struct SimPackageArgs {
    pub name: String,
    pub data: serde_json::Value,
}

/// Why the source of the analysis package was not found.
#[derive(Debug, Clone, Copy, PartialEq, Eq, Structural)]
pub enum AnalysisSourceError {
    /// The analysis package is there and its data is not a string.
    NotAString,
    /// No package is the analysis package.
    NotFound,
}

impl AnalysisSourceError {
    /// The message shown for the error.
    pub fn to_string(&self) -> (r: String)
        ensures
            r@ == match self {
                AnalysisSourceError::NotAString => "Analysis source must be a string"@,
                AnalysisSourceError::NotFound => "Did not find analysis source"@,
            },
    {
        match self {
            AnalysisSourceError::NotAString => "Analysis source must be a string".to_owned(),
            AnalysisSourceError::NotFound => "Did not find analysis source".to_owned(),
        }
    }
}

/// The source that the data of the analysis package gives: the text, if the
/// data is a string.
pub open spec fn source_of(text: Option<Seq<char>>) -> Result<Seq<char>, AnalysisSourceError> {
    match text {
        Some(s) => Ok(s),
        None => Err(AnalysisSourceError::NotAString),
    }
}

/// The source of the analysis: that of the first package named `analysis`.
pub open spec fn analysis_source(packages: Seq<SimPackageArgs>) -> Result<
    Seq<char>,
    AnalysisSourceError,
>
    decreases packages.len(),
{
    if packages.len() == 0 {
        Err(AnalysisSourceError::NotFound)
    } else if packages[0].name@ == "analysis"@ {
        source_of(json_text(packages[0].data))
    } else {
        analysis_source(packages.skip(1))
    }
}

/// The source that the data of the analysis package gives.
pub fn source_from(text: Option<String>) -> (r: Result<String, AnalysisSourceError>)
    ensures
        r is Ok == text is Some,
        r matches Ok(s) ==> Some(s) == text,
        r matches Err(e) ==> e == AnalysisSourceError::NotAString,
{
    match text {
        Some(s) => Ok(s),
        None => Err(AnalysisSourceError::NotAString),
    }
}

/// Finds the source of the analysis among the packages of a simulation. The
/// first package named `analysis` decides: its data is the source if it is
/// a string, and an error if it is not. Every analysis source is taken to
/// be the same within the simulation runs of an experiment run.
pub fn get_analysis_source(sim_packages: &[SimPackageArgs]) -> (r: Result<
    String,
    AnalysisSourceError,
>)
    ensures
        r is Ok == analysis_source(sim_packages@) is Ok,
        r matches Ok(s) ==> Ok::<Seq<char>, AnalysisSourceError>(s@) == analysis_source(
            sim_packages@,
        ),
        r matches Err(e) ==> Err::<Seq<char>, AnalysisSourceError>(e) == analysis_source(
            sim_packages@,
        ),
{
    let wanted = "analysis".to_owned();
    let mut i: usize = 0;
    assert(sim_packages@.skip(0) =~= sim_packages@);
    while i < sim_packages.len()
        invariant
            i <= sim_packages.len(),
            wanted@ == "analysis"@,
            analysis_source(sim_packages@) == analysis_source(sim_packages@.skip(i as int)),
        decreases sim_packages.len() - i,
    {
        let ghost rest = sim_packages@.skip(i as int);
        assert(rest[0] == sim_packages@[i as int]);
        if sim_packages[i].name == wanted {
            return source_from(text_of(&sim_packages[i].data));
        }
        assert(rest.skip(1) =~= sim_packages@.skip(i as int + 1));
        i += 1;
    }
    Err(AnalysisSourceError::NotFound)
}

/// Creates the analysis package.
pub struct Creator {

}

impl Creator {
    /// The creator of the analysis package.
    pub fn new() -> (r: Creator) {
        Creator {  }
    }

    /// The source from which the package is created.
    pub fn analysis_source(&self, sim_packages: &[SimPackageArgs]) -> (r: Result<
        String,
        AnalysisSourceError,
    >)
        ensures
            r is Ok == analysis_source(sim_packages@) is Ok,
            r matches Ok(s) ==> Ok::<Seq<char>, AnalysisSourceError>(s@) == analysis_source(
                sim_packages@,
            ),
            r matches Err(e) ==> Err::<Seq<char>, AnalysisSourceError>(e) == analysis_source(
                sim_packages@,
            ),
    {
        get_analysis_source(sim_packages)
    }
}

} // verus!

//! How the tool is asked to run.

use vstd::prelude::*;

use crate::text::same_text;

verus! {

/// The options of a run.
#[derive(Debug, PartialEq, Eq)]
pub struct Config {
    /// Whether the suggested tests are written into the sources.
    pub auto_mode: bool,
    /// Whether the faster, less thorough model is asked.
    pub quick_mode: bool,
    /// Whether debug messages are logged.
    pub verbose: bool,
    /// The files and directories to test, as they were given. Where none was
    /// given the whole source directory is tested.
    pub paths: Vec<Vec<u8>>,
}

impl Default for Config {
    fn default() -> (r: Config)
        ensures
            !r.auto_mode,
            !r.quick_mode,
            !r.verbose,
            r.paths@.len() == 0,
    {
        Config { auto_mode: false, quick_mode: false, verbose: false, paths: Vec::new() }
    }
}

/// The names under which the model service knows the models.
#[derive(Debug, PartialEq, Eq)]
pub struct Models {
    /// The model for the best analysis.
    pub thorough: String,
    /// The model for a faster, less thorough one.
    pub quick: String,
}

/// The name of the model that is asked.
pub open spec fn model_name(quick_mode: bool, models: Models) -> Seq<char> {
    if quick_mode {
        models.quick@
    } else {
        models.thorough@
    }
}

/// The directive that is added to what the environment says of logging, if any
/// is. `environment` is what the variable `RUST_LOG` says, where it is set.
pub open spec fn directive_text(verbose: bool, environment: Option<Seq<char>>) -> Option<
    Seq<char>,
> {
    if verbose {
        Some("morris=debug"@)
    } else if environment == Some("debug"@) {
        None
    } else {
        Some("morris=warn"@)
    }
}

impl Config {
    /// The name of the model that is asked.
    pub fn model_id<'a>(&self, models: &'a Models) -> (r: &'a str)
        ensures
            r@ == model_name(self.quick_mode, *models),
    {
        if self.quick_mode {
            models.quick.as_str()
        } else {
            models.thorough.as_str()
        }
    }

    /// Whether the whole source directory is tested.
    pub fn tests_everything(&self) -> (r: bool)
        ensures
            r == (self.paths@.len() == 0),
    {
        self.paths.len() == 0
    }
}

/// The directive that is added to what the environment says of logging. Debug
/// messages are asked for with `verbose`, or by the variable `RUST_LOG` where it
/// says `debug`; only warnings are logged otherwise.
pub fn log_directive(verbose: bool, environment: Option<&str>) -> (r: Option<&'static str>)
    ensures
        directive_text(
            verbose,
            match environment {
                Some(text) => Some(text@),
                None => None,
            },
        ) == match r {
            Some(text) => Some(text@),
            None => None,
        },
{
    let asked = match environment {
        Some(text) => same_text(text, "debug"),
        None => false,
    };
    if verbose {
        Some("morris=debug")
    } else if asked {
        None
    } else {
        Some("morris=warn")
    }
}

/// Quick mode asks the one model and any other run the other, whatever the other
/// options are.
pub proof fn quick_mode_decides(models: Models)
    ensures
        model_name(true, models) == models.quick@,
        model_name(false, models) == models.thorough@,
{
}

/// Debug messages are asked for in verbose mode whatever the environment says.
/// Otherwise an environment that asks for them is left alone, and any other,
/// however close, gets warnings only.
pub proof fn environment_can_ask_for_debugging(environment: Option<Seq<char>>)
    ensures
        directive_text(true, environment) == Some("morris=debug"@),
        directive_text(false, Some("debug"@)) is None,
        environment != Some("debug"@) ==> directive_text(false, environment) == Some(
            "morris=warn"@,
        ),
{
}

} // verus!

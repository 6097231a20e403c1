//! The settings of a run as the scripts see them.
use vstd::prelude::*;

verus! {

/// The formats in which a result can be written.
#[derive(Debug, Clone, Copy, PartialEq, Eq, Structural)]
pub enum OutputFormat {
    JSON,
    YAML,
    Text,
}

/// The settings of a run.
#[derive(Debug)]
pub struct ScriptData<'a> {
    /// The address of the site; it ends with a slash.
    pub site: String,
    /// The parameters of the script, each with its value.
    pub other_args: Vec<(&'a str, &'a str)>,
    /// Whether requests and answers are printed.
    pub verbose: bool,
    pub output_format: OutputFormat,
    /// Where the result is written; the console where nothing is given.
    pub output_path: Option<&'a str>,
}

} // verus!

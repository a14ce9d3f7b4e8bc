use crate::dynamic::{DynamicModel, DynamicValue};
use crate::encode::{convert_nu_value, encoded};
use crate::error::{ConversionError, ErrorModel, Failure, FailureModel};
use crate::structured::{StructuredModel, StructuredValue};
use vstd::prelude::*;
use vstd::string::StrSliceExecFns;

verus! {

/// The plugin that reads structured documents into values of the host and
/// writes values of the host as structured documents.
#[derive(Clone, Copy, Debug, PartialEq, Eq)]
pub struct NuPlist;

/// What is left to do for a call once the plugin has looked at it: the work
/// on bytes that a codec does.
#[derive(Debug, PartialEq)]
pub enum Step {
    /// Read these bytes as a structured document, in whichever encoding they
    /// are, and convert the document to a value of the host.
    Parse(Vec<u8>),
    /// Write this document out, in the encoding that the call asks for.
    Write(StructuredValue),
}

/// What a `Step` stands for.
pub enum StepModel {
    Parse(Seq<u8>),
    Write(StructuredModel),
}

impl View for Step {
    type V = StepModel;

    open spec fn view(&self) -> StepModel {
        match self {
            Step::Parse(bytes) => StepModel::Parse(bytes@),
            Step::Write(document) => StepModel::Write(document@),
        }
    }
}

/// The name of the command that reads a document. Every other name that the
/// plugin is called by writes one.
pub open spec fn reading_command() -> Seq<char> {
    "from plist"@
}

/// What the plugin makes of a call, by the command's name and the value that
/// was piped in.
///
/// To read a document it takes the bytes of a string, in UTF-8, or of a byte
/// string, and refuses any other value. To write one it converts the value
/// to a structured document, and fails as that conversion fails.
pub open spec fn planned(name: Seq<char>, input: DynamicModel) -> Result<StepModel, ErrorModel> {
    if name == reading_command() {
        match input {
            DynamicModel::String(text) => Ok(StepModel::Parse(vstd::utf8::encode_utf8(text))),
            DynamicModel::Binary(bytes) => Ok(StepModel::Parse(bytes)),
            _ => Err(ErrorModel::at_root(FailureModel::InvalidInput)),
        }
    } else {
        match encoded(input) {
            Ok(document) => Ok(StepModel::Write(document)),
            Err(e) => Err(e),
        }
    }
}

impl NuPlist {
    /// Looks at a call and says what is left to do for it, or why it cannot be
    /// served.
    pub fn run(&self, name: &str, input: &DynamicValue) -> (r: Result<Step, ConversionError>)
        ensures
            match r {
                Ok(step) => planned(name@, input@) == Ok::<StepModel, ErrorModel>(step@),
                Err(e) => planned(name@, input@) == Err::<StepModel, ErrorModel>(e@),
            },
    {
        if name.to_owned() == "from plist".to_owned() {
            match input {
                DynamicValue::String(val) => Ok(Step::Parse(val.as_str().as_bytes_vec())),
                DynamicValue::Binary(val) => Ok(Step::Parse(val.clone())),
                _ => Err(ConversionError::at_root(Failure::InvalidInput)),
            }
        } else {
            match convert_nu_value(input) {
                Ok(document) => Ok(Step::Write(document)),
                Err(e) => Err(e),
            }
        }
    }
}

} // verus!

//! The errors of reading, building and running a process.
use vstd::prelude::*;
use vstd::std_specs::convert::FromSpecImpl;
use crate::bpmn::BpmnError;
use crate::text::{owned, join2, join3, join4, join5, decimal};

verus! {

/// Design flaws in bpmn or incorrect use of the diagram
#[derive(Debug)]
pub enum DiagramError {
    MissingOutput(String),
    MissingDefault(String),
    MissingBoundary(String, String),
    MissingIntermediateEvent(String, String),
    MissingIntermediateThrowEventName(String),
    MissingIntermediateCatchEvent(String, String),
    MissingEndEvent,
    NotSupported(String),
    BpmnRequirement(String),
}

/// Errors that can occur while running the process
#[derive(Debug)]
#[non_exhaustive]
pub enum RuntimeError {
    /// Bpmn diagram design error or user specified wrong value
    Diagram(DiagramError),
    /// Engine problems, should not happen :)
    Engine(String),
    /// A user function stopped the process with this message.
    Panic(String),
}

/// What went wrong while parsing bpmn data.
#[derive(Debug)]
pub enum ParseErrorKind {
    Bpmn(BpmnError),
    ProcessBuild(String),
    MissingStartEvent,
    NotSupported(String),
    Encoding(String),
    Xml { line: usize, column: usize, source: String },
}

/// Errors that can occur while parsing bpmn data.
#[derive(Debug)]
#[non_exhaustive]
pub struct ParseError {
    pub source: ParseErrorKind,
}

#[derive(Debug)]
/// What went wrong reading a BPMN file.
pub enum BpmnFileErrorKind {
    ReadFile(String),
    Parse(ParseError),
}

/// Errors that can occur while reading a bpmn file
#[derive(Debug)]
#[non_exhaustive]
pub struct BpmnFileError {
    pub path: String,
    pub source: BpmnFileErrorKind,
}

/// Errors that can occur while trying to make a process runnable
#[derive(Debug)]
pub enum BuildError {
    MissingImplementations(String),
}

/// All errors of the library.
#[derive(Debug)]
pub enum Error {
    BpmnFile(BpmnFileError),
    Parse(ParseError),
    Runtime(RuntimeError),
    Build(BuildError),
}

/// How a diagram error reads.
pub open spec fn spec_diagram_error_text(e: DiagramError) -> Seq<char> {
    match e {
        DiagramError::MissingOutput(s) => s@,
        DiagramError::MissingDefault(s) => s@ + " has no default flow"@,
        DiagramError::MissingBoundary(s1, s2) => "could not find "@ + s1@ + " boundary symbol attached to "@ + s2@,
        DiagramError::MissingIntermediateEvent(s1, s2) =>
            "event gateway "@ + s1@ + " could not find intermediate catch event "@ + s2@,
        DiagramError::MissingIntermediateThrowEventName(s) => "missing intermediate throw event name on "@ + s@,
        DiagramError::MissingIntermediateCatchEvent(s1, s2) =>
            "missing intermediate catch event symbol "@ + s1@ + " with name "@ + s2@,
        DiagramError::MissingEndEvent => "missing end event"@,
        DiagramError::NotSupported(s) => s@ + " not supported"@,
        DiagramError::BpmnRequirement(s) => s@,
    }
}

/// How a runtime error reads.
pub open spec fn spec_runtime_error_text(e: RuntimeError) -> Seq<char> {
    match e {
        RuntimeError::Diagram(_) => "diagram error"@,
        RuntimeError::Engine(s) => "engine failure `"@ + s@ + "`"@,
        RuntimeError::Panic(_) => "user triggered panic"@,
    }
}

/// How an error constructing a BPMN element reads.
pub open spec fn spec_bpmn_error_text(e: BpmnError) -> Seq<char> {
    match e {
        BpmnError::MissingId(s) => "tag `"@ + s@ + "` missing attribute id"@,
        BpmnError::MissingTargetRef => "tag `sequenceFlow` missing attribute targetRef"@,
        BpmnError::NoOutput(s) => s@ + " has no output"@,
        BpmnError::BpmnRequirement(s) => s@,
        BpmnError::TypeNotImplemented(s) => "tag `"@ + s@ + "` not implemented"@,
    }
}

/// How a parse error's kind reads.
pub open spec fn spec_parse_kind_text(e: ParseErrorKind) -> Seq<char> {
    match e {
        ParseErrorKind::Bpmn(_) => "could not create bpmn type"@,
        ParseErrorKind::ProcessBuild(s) => s@,
        ParseErrorKind::MissingStartEvent => "missing start event"@,
        ParseErrorKind::NotSupported(s) => "`"@ + s@ + "` not supported"@,
        ParseErrorKind::Encoding(s) => s@,
        ParseErrorKind::Xml { line, column, .. } =>
            "xml error on line `"@ + crate::text::spec_decimal(line as nat)
                + "` and column `"@ + crate::text::spec_decimal(column as nat) + "`"@,
    }
}

/// How a build error reads.
pub open spec fn spec_build_error_text(e: BuildError) -> Seq<char> {
    match e {
        BuildError::MissingImplementations(s) => "missing implementations "@ + s@,
    }
}

/// How an error of the library reads: as the error it wraps.
pub open spec fn spec_error_text(e: Error) -> Seq<char> {
    match e {
        Error::BpmnFile(f) => "error reading `"@ + f.path@ + "`"@,
        Error::Parse(_) => "error parsing"@,
        Error::Runtime(r) => spec_runtime_error_text(r),
        Error::Build(b) => spec_build_error_text(b),
    }
}

impl DiagramError {
    /// The message that describes the error.
    pub fn message(&self) -> (r: String)
        ensures
            r@ == spec_diagram_error_text(*self),
    {
        match self {
            DiagramError::MissingOutput(s) => owned(s.as_str()),
            DiagramError::MissingDefault(s) => join2(s.as_str(), " has no default flow"),
            DiagramError::MissingBoundary(s1, s2) =>
                join4("could not find ", s1.as_str(), " boundary symbol attached to ", s2.as_str()),
            DiagramError::MissingIntermediateEvent(s1, s2) =>
                join4("event gateway ", s1.as_str(), " could not find intermediate catch event ", s2.as_str()),
            DiagramError::MissingIntermediateThrowEventName(s) =>
                join2("missing intermediate throw event name on ", s.as_str()),
            DiagramError::MissingIntermediateCatchEvent(s1, s2) =>
                join4("missing intermediate catch event symbol ", s1.as_str(), " with name ", s2.as_str()),
            DiagramError::MissingEndEvent => owned("missing end event"),
            DiagramError::NotSupported(s) => join2(s.as_str(), " not supported"),
            DiagramError::BpmnRequirement(s) => owned(s.as_str()),
        }
    }
}

impl RuntimeError {
    /// The message that describes the error.
    pub fn message(&self) -> (r: String)
        ensures
            r@ == spec_runtime_error_text(*self),
    {
        match self {
            RuntimeError::Diagram(_) => owned("diagram error"),
            RuntimeError::Engine(s) => join3("engine failure `", s.as_str(), "`"),
            RuntimeError::Panic(_) => owned("user triggered panic"),
        }
    }
}

impl BpmnError {
    /// The message that describes the error.
    pub fn message(&self) -> (r: String)
        ensures
            r@ == spec_bpmn_error_text(*self),
    {
        match self {
            BpmnError::MissingId(s) => join3("tag `", s.as_str(), "` missing attribute id"),
            BpmnError::MissingTargetRef => owned("tag `sequenceFlow` missing attribute targetRef"),
            BpmnError::NoOutput(s) => join2(s.as_str(), " has no output"),
            BpmnError::BpmnRequirement(s) => owned(s.as_str()),
            BpmnError::TypeNotImplemented(s) => join3("tag `", s.as_str(), "` not implemented"),
        }
    }
}

impl ParseErrorKind {
    /// The message that describes the error.
    pub fn message(&self) -> (r: String)
        ensures
            r@ == spec_parse_kind_text(*self),
    {
        match self {
            ParseErrorKind::Bpmn(_) => owned("could not create bpmn type"),
            ParseErrorKind::ProcessBuild(s) => owned(s.as_str()),
            ParseErrorKind::MissingStartEvent => owned("missing start event"),
            ParseErrorKind::NotSupported(s) => join3("`", s.as_str(), "` not supported"),
            ParseErrorKind::Encoding(s) => owned(s.as_str()),
            ParseErrorKind::Xml { line, column, .. } => {
                let l = decimal(*line);
                let c = decimal(*column);
                join5("xml error on line `", l.as_str(), "` and column `", c.as_str(), "`")
            }
        }
    }
}

impl ParseError {
    /// The message that describes the error.
    pub fn message(&self) -> (r: String)
        ensures
            r@ == "error parsing"@,
    {
        owned("error parsing")
    }
}

impl BpmnFileError {
    /// The error for the file at `path`.
    pub fn new(path: String, source: BpmnFileErrorKind) -> (r: BpmnFileError)
        ensures
            r.path == path,
            r.source == source,
    {
        BpmnFileError { path, source }
    }

    /// The message that describes the error.
    pub fn message(&self) -> (r: String)
        ensures
            r@ == "error reading `"@ + self.path@ + "`"@,
    {
        join3("error reading `", self.path.as_str(), "`")
    }
}

impl BuildError {
    /// The message that describes the error.
    pub fn message(&self) -> (r: String)
        ensures
            r@ == spec_build_error_text(*self),
    {
        match self {
            BuildError::MissingImplementations(s) => join2("missing implementations ", s.as_str()),
        }
    }
}

impl Error {
    /// The message of the error that this one wraps.
    pub fn message(&self) -> (r: String)
        ensures
            r@ == spec_error_text(*self),
    {
        match self {
            Error::BpmnFile(e) => e.message(),
            Error::Parse(e) => e.message(),
            Error::Runtime(e) => e.message(),
            Error::Build(e) => e.message(),
        }
    }
}

impl From<DiagramError> for RuntimeError {
    fn from(source: DiagramError) -> (r: Self)
        ensures
            r == RuntimeError::Diagram(source),
    {
        RuntimeError::Diagram(source)
    }
}

impl FromSpecImpl<DiagramError> for RuntimeError {
    open spec fn obeys_from_spec() -> bool {
        true
    }

    open spec fn from_spec(v: DiagramError) -> RuntimeError {
        RuntimeError::Diagram(v)
    }
}

impl From<ParseErrorKind> for ParseError {
    fn from(value: ParseErrorKind) -> (r: Self)
        ensures
            r == (ParseError { source: value }),
    {
        ParseError { source: value }
    }
}

impl FromSpecImpl<ParseErrorKind> for ParseError {
    open spec fn obeys_from_spec() -> bool {
        true
    }

    open spec fn from_spec(v: ParseErrorKind) -> ParseError {
        ParseError { source: v }
    }
}

impl From<BpmnFileError> for Error {
    fn from(value: BpmnFileError) -> (r: Self)
        ensures
            r == Error::BpmnFile(value),
    {
        Error::BpmnFile(value)
    }
}

impl FromSpecImpl<BpmnFileError> for Error {
    open spec fn obeys_from_spec() -> bool {
        true
    }

    open spec fn from_spec(v: BpmnFileError) -> Error {
        Error::BpmnFile(v)
    }
}

impl From<ParseError> for Error {
    fn from(value: ParseError) -> (r: Self)
        ensures
            r == Error::Parse(value),
    {
        Error::Parse(value)
    }
}

impl FromSpecImpl<ParseError> for Error {
    open spec fn obeys_from_spec() -> bool {
        true
    }

    open spec fn from_spec(v: ParseError) -> Error {
        Error::Parse(v)
    }
}

impl From<RuntimeError> for Error {
    fn from(value: RuntimeError) -> (r: Self)
        ensures
            r == Error::Runtime(value),
    {
        Error::Runtime(value)
    }
}

impl FromSpecImpl<RuntimeError> for Error {
    open spec fn obeys_from_spec() -> bool {
        true
    }

    open spec fn from_spec(v: RuntimeError) -> Error {
        Error::Runtime(v)
    }
}

impl From<BuildError> for Error {
    fn from(value: BuildError) -> (r: Self)
        ensures
            r == Error::Build(value),
    {
        Error::Build(value)
    }
}

impl FromSpecImpl<BuildError> for Error {
    open spec fn obeys_from_spec() -> bool {
        true
    }

    open spec fn from_spec(v: BuildError) -> Error {
        Error::Build(v)
    }
}

} // verus!

use crate::ast::PreprocessingToken;
use crate::spanned::{Location, Spanned};
use vstd::prelude::*;

verus! {

#[derive(Debug, Clone, Copy, PartialEq, Eq, Structural)]
pub enum DiagnosticSeverity {
    Error,
    Warning,
}

#[derive(Debug, Clone, Copy, PartialEq, Eq, Structural)]
pub enum LabelKind {
    Primary,
    Secondary,
    Help,
}

/// A message attached to a place in the source.
#[derive(Debug)]
pub struct Label {
    pub kind: LabelKind,
    pub location: Location,
    pub message: String,
}

/// A diagnostic made into plain values: its severity, its title and its labels.
/// This is the error type of every fallible operation of the library.
#[derive(Debug)]
pub struct Report {
    pub severity: DiagnosticSeverity,
    pub title: String,
    pub labels: Vec<Label>,
}

/// The result of a fallible operation of the library.
pub type PResult<T> = Result<T, Report>;

/// The model of a label: its kind, its location and its message.
pub open spec fn label_view(l: Label) -> (LabelKind, Location, Seq<char>) {
    (l.kind, l.location, l.message@)
}

/// The models of some labels.
pub open spec fn labels_view(ls: Seq<Label>) -> Seq<(LabelKind, Location, Seq<char>)> {
    ls.map_values(|l: Label| label_view(l))
}

/// Something that can be reported to the user.
pub trait Diagnostic: Sized {
    /// The title of the report.
    spec fn report_title(&self) -> Seq<char>;

    /// The severity of the report.
    spec fn report_severity(&self) -> DiagnosticSeverity;

    /// The models of the labels of the report.
    spec fn report_labels(&self) -> Seq<(LabelKind, Location, Seq<char>)>;

    fn title(&self) -> (r: &'static str)
        ensures
            r@ == self.report_title(),
    ;

    fn severity(&self) -> (r: DiagnosticSeverity)
        ensures
            r == self.report_severity(),
    ;

    fn labels(&self) -> (r: Vec<Label>)
        ensures
            labels_view(r@) == self.report_labels(),
    ;

    /// Collects the title, severity and labels into a report.
    fn into_report(self) -> (r: Report)
        ensures
            r.severity == self.report_severity(),
            r.title@ == self.report_title(),
            labels_view(r.labels@) == self.report_labels(),
    {
        let severity = self.severity();
        let title = String::from_str(self.title());
        let labels = self.labels();
        Report { severity, title, labels }
    }
}

/// Builds a label.
pub fn label(kind: LabelKind, location: &Location, message: &str) -> (r: Label)
    ensures
        r.kind == kind,
        r.location == *location,
        r.message@ == message@,
{
    Label { kind, location: location.duplicate(), message: String::from_str(message) }
}

#[derive(Debug)]
pub struct UnmatchedDelimiter {
    pub opening_delimiter_location: Location,
    pub potential_closing_delimiter_location: Location,
    pub closing_delimiter: PreprocessingToken,
}

impl Diagnostic for UnmatchedDelimiter {
    open spec fn report_title(&self) -> Seq<char> {
        "Unmatched delimiter"@
    }

    open spec fn report_severity(&self) -> DiagnosticSeverity {
        DiagnosticSeverity::Error
    }

    open spec fn report_labels(&self) -> Seq<(LabelKind, Location, Seq<char>)> {
        seq![
            (LabelKind::Primary, self.opening_delimiter_location, "Unmatched delimiter"@),
            (LabelKind::Secondary, self.potential_closing_delimiter_location, "Potential location for a closing delimiter"@),
        ]
    }

    fn title(&self) -> (r: &'static str)
        ensures
            r@ == "Unmatched delimiter"@,
    {
        "Unmatched delimiter"
    }

    fn severity(&self) -> (r: DiagnosticSeverity)
        ensures
            r == DiagnosticSeverity::Error,
    {
        DiagnosticSeverity::Error
    }

    fn labels(&self) -> (r: Vec<Label>)
        ensures
            r@.len() == 2,
            r@[0].kind == LabelKind::Primary,
            r@[0].location == self.opening_delimiter_location,
            r@[0].message@ == "Unmatched delimiter"@,
            r@[1].kind == LabelKind::Secondary,
            r@[1].location == self.potential_closing_delimiter_location,
            r@[1].message@ == "Potential location for a closing delimiter"@,
    {
        let mut v = Vec::new();
        v.push(label(LabelKind::Primary, &self.opening_delimiter_location, "Unmatched delimiter"));
        v.push(
            label(
                LabelKind::Secondary,
                &self.potential_closing_delimiter_location,
                "Potential location for a closing delimiter",
            ),
        );
        v
    }
}

#[derive(Debug)]
pub struct UnterminatedTreeNode {
    pub opening_token: Location,
}

impl Diagnostic for UnterminatedTreeNode {
    open spec fn report_title(&self) -> Seq<char> {
        "Unterminated tree node"@
    }

    open spec fn report_severity(&self) -> DiagnosticSeverity {
        DiagnosticSeverity::Error
    }

    open spec fn report_labels(&self) -> Seq<(LabelKind, Location, Seq<char>)> {
        seq![(LabelKind::Primary, self.opening_token, "No closer for this group"@)]
    }

    fn title(&self) -> (r: &'static str)
        ensures
            r@ == "Unterminated tree node"@,
    {
        "Unterminated tree node"
    }

    fn severity(&self) -> (r: DiagnosticSeverity)
        ensures
            r == DiagnosticSeverity::Error,
    {
        DiagnosticSeverity::Error
    }

    fn labels(&self) -> (r: Vec<Label>)
        ensures
            r@.len() == 1,
            r@[0].kind == LabelKind::Primary,
            r@[0].location == self.opening_token,
            r@[0].message@ == "No closer for this group"@,
    {
        let mut v = Vec::new();
        v.push(label(LabelKind::Primary, &self.opening_token, "No closer for this group"));
        v
    }
}

#[derive(Debug)]
pub struct UnknownDirective(pub Location);

impl Diagnostic for UnknownDirective {
    open spec fn report_title(&self) -> Seq<char> {
        "Unknown directive"@
    }

    open spec fn report_severity(&self) -> DiagnosticSeverity {
        DiagnosticSeverity::Error
    }

    open spec fn report_labels(&self) -> Seq<(LabelKind, Location, Seq<char>)> {
        seq![(LabelKind::Primary, self.0, ""@)]
    }

    fn title(&self) -> (r: &'static str)
        ensures
            r@ == "Unknown directive"@,
    {
        "Unknown directive"
    }

    fn severity(&self) -> (r: DiagnosticSeverity)
        ensures
            r == DiagnosticSeverity::Error,
    {
        DiagnosticSeverity::Error
    }

    fn labels(&self) -> (r: Vec<Label>)
        ensures
            r@.len() == 1,
            r@[0].kind == LabelKind::Primary,
            r@[0].location == self.0,
            r@[0].message@ == ""@,
    {
        let mut v = Vec::new();
        v.push(label(LabelKind::Primary, &self.0, ""));
        v
    }
}

#[derive(Debug)]
pub struct DanglingEndif(pub Location);

impl Diagnostic for DanglingEndif {
    open spec fn report_title(&self) -> Seq<char> {
        "Dangling end if"@
    }

    open spec fn report_severity(&self) -> DiagnosticSeverity {
        DiagnosticSeverity::Error
    }

    open spec fn report_labels(&self) -> Seq<(LabelKind, Location, Seq<char>)> {
        seq![(LabelKind::Primary, self.0, "This endif directive has no matching opening directive"@)]
    }

    fn title(&self) -> (r: &'static str)
        ensures
            r@ == "Dangling end if"@,
    {
        "Dangling end if"
    }

    fn severity(&self) -> (r: DiagnosticSeverity)
        ensures
            r == DiagnosticSeverity::Error,
    {
        DiagnosticSeverity::Error
    }

    fn labels(&self) -> (r: Vec<Label>)
        ensures
            r@.len() == 1,
            r@[0].kind == LabelKind::Primary,
            r@[0].location == self.0,
            r@[0].message@ == "This endif directive has no matching opening directive"@,
    {
        let mut v = Vec::new();
        v.push(
            label(
                LabelKind::Primary,
                &self.0,
                "This endif directive has no matching opening directive",
            ),
        );
        v
    }
}

#[derive(Debug)]
pub struct ExpectedButFound {
    pub location: Location,
    pub expected: String,
    pub found: String,
}

impl Diagnostic for ExpectedButFound {
    open spec fn report_title(&self) -> Seq<char> {
        "Encountered wrong token"@
    }

    open spec fn report_severity(&self) -> DiagnosticSeverity {
        DiagnosticSeverity::Error
    }

    open spec fn report_labels(&self) -> Seq<(LabelKind, Location, Seq<char>)> {
        seq![
            (LabelKind::Primary, self.location, self.expected@),
            (LabelKind::Secondary, self.location, self.found@),
        ]
    }

    fn title(&self) -> (r: &'static str)
        ensures
            r@ == "Encountered wrong token"@,
    {
        "Encountered wrong token"
    }

    fn severity(&self) -> (r: DiagnosticSeverity)
        ensures
            r == DiagnosticSeverity::Error,
    {
        DiagnosticSeverity::Error
    }

    fn labels(&self) -> (r: Vec<Label>)
        ensures
            r@.len() == 2,
            r@[0].kind == LabelKind::Primary,
            r@[0].location == self.location,
            r@[0].message@ == self.expected@,
            r@[1].kind == LabelKind::Secondary,
            r@[1].location == self.location,
            r@[1].message@ == self.found@,
    {
        let mut v = Vec::new();
        v.push(label(LabelKind::Primary, &self.location, self.expected.as_str()));
        v.push(label(LabelKind::Secondary, &self.location, self.found.as_str()));
        v
    }
}

#[derive(Debug)]
pub struct ErrorDirective(pub Location, pub Option<Spanned<PreprocessingToken>>);

impl Diagnostic for ErrorDirective {
    open spec fn report_title(&self) -> Seq<char> {
        "Encountered error directive"@
    }

    open spec fn report_severity(&self) -> DiagnosticSeverity {
        DiagnosticSeverity::Error
    }

    open spec fn report_labels(&self) -> Seq<(LabelKind, Location, Seq<char>)> {
        match self.1 {
            Some(m) => seq![(LabelKind::Primary, self.0, ""@), (LabelKind::Secondary, m.location, "Error message provided"@)],
            None => seq![(LabelKind::Primary, self.0, ""@)],
        }
    }

    fn title(&self) -> (r: &'static str)
        ensures
            r@ == "Encountered error directive"@,
    {
        "Encountered error directive"
    }

    fn severity(&self) -> (r: DiagnosticSeverity)
        ensures
            r == DiagnosticSeverity::Error,
    {
        DiagnosticSeverity::Error
    }

    fn labels(&self) -> (r: Vec<Label>)
        ensures
            r@.len() == if self.1 is Some { 2int } else { 1int },
            r@[0].kind == LabelKind::Primary,
            r@[0].location == self.0,
            r@[0].message@ == ""@,
            self.1 is Some ==> r@[1].kind == LabelKind::Secondary,
            self.1 is Some ==> r@[1].location == self.1->0.location,
            self.1 is Some ==> r@[1].message@ == "Error message provided"@,
    {
        let mut v = Vec::new();
        v.push(label(LabelKind::Primary, &self.0, ""));
        match &self.1 {
            Some(msg) => {
                v.push(label(LabelKind::Secondary, &msg.location, "Error message provided"));
            },
            None => {},
        }
        v
    }
}

#[derive(Debug)]
pub struct SimpleError(pub Location, pub String);

impl Diagnostic for SimpleError {
    open spec fn report_title(&self) -> Seq<char> {
        "simple error"@
    }

    open spec fn report_severity(&self) -> DiagnosticSeverity {
        DiagnosticSeverity::Error
    }

    open spec fn report_labels(&self) -> Seq<(LabelKind, Location, Seq<char>)> {
        seq![(LabelKind::Primary, self.0, self.1@)]
    }

    fn title(&self) -> (r: &'static str)
        ensures
            r@ == "simple error"@,
    {
        "simple error"
    }

    fn severity(&self) -> (r: DiagnosticSeverity)
        ensures
            r == DiagnosticSeverity::Error,
    {
        DiagnosticSeverity::Error
    }

    fn labels(&self) -> (r: Vec<Label>)
        ensures
            r@.len() == 1,
            r@[0].kind == LabelKind::Primary,
            r@[0].location == self.0,
            r@[0].message@ == self.1@,
    {
        let mut v = Vec::new();
        v.push(label(LabelKind::Primary, &self.0, self.1.as_str()));
        v
    }
}

#[derive(Debug)]
pub struct SimpleWarning(pub Location, pub String);

impl Diagnostic for SimpleWarning {
    open spec fn report_title(&self) -> Seq<char> {
        "simple warning"@
    }

    open spec fn report_severity(&self) -> DiagnosticSeverity {
        DiagnosticSeverity::Warning
    }

    open spec fn report_labels(&self) -> Seq<(LabelKind, Location, Seq<char>)> {
        seq![(LabelKind::Primary, self.0, self.1@)]
    }

    fn title(&self) -> (r: &'static str)
        ensures
            r@ == "simple warning"@,
    {
        "simple warning"
    }

    fn severity(&self) -> (r: DiagnosticSeverity)
        ensures
            r == DiagnosticSeverity::Warning,
    {
        DiagnosticSeverity::Warning
    }

    fn labels(&self) -> (r: Vec<Label>)
        ensures
            r@.len() == 1,
            r@[0].kind == LabelKind::Primary,
            r@[0].location == self.0,
            r@[0].message@ == self.1@,
    {
        let mut v = Vec::new();
        v.push(label(LabelKind::Primary, &self.0, self.1.as_str()));
        v
    }
}

impl Label {
    /// A copy of this label.
    pub fn duplicate(&self) -> (r: Label)
        ensures
            r.kind == self.kind,
            r.location == self.location,
            r.message@ == self.message@,
    {
        Label { kind: self.kind, location: self.location.duplicate(), message: self.message.clone() }
    }
}

impl Report {
    /// A copy of this report.
    pub fn duplicate(&self) -> (r: Report)
        ensures
            r.severity == self.severity,
            r.title@ == self.title@,
            r.labels@.len() == self.labels@.len(),
            forall|i: int|
                0 <= i < self.labels@.len() ==> (#[trigger] r.labels@[i]).kind == self.labels@[i].kind
                    && r.labels@[i].location == self.labels@[i].location && r.labels@[i].message@
                    == self.labels@[i].message@,
    {
        let mut labels: Vec<Label> = Vec::new();
        let mut i: usize = 0;
        while i < self.labels.len()
            invariant
                i <= self.labels@.len(),
                labels@.len() == i,
                forall|j: int|
                    0 <= j < i ==> (#[trigger] labels@[j]).kind == self.labels@[j].kind && labels@[j].location
                        == self.labels@[j].location && labels@[j].message@ == self.labels@[j].message@,
            decreases self.labels@.len() - i,
        {
            labels.push(self.labels[i].duplicate());
            i += 1;
        }
        Report { severity: self.severity, title: self.title.clone(), labels }
    }
}

/// A report of a `SimpleError` at `location` with message `message`.
pub fn simple_error(location: &Location, message: &str) -> (r: Report)
    ensures
        r.severity == DiagnosticSeverity::Error,
        r.labels@.len() == 1,
        r.labels@[0].location == *location,
        r.labels@[0].message@ == message@,
{
    let e = SimpleError(location.duplicate(), String::from_str(message));
    let severity = e.severity();
    let title = String::from_str(e.title());
    let labels = e.labels();
    Report { severity, title, labels }
}

} // verus!

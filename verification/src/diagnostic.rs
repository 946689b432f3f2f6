use crate::span::Span;
use vstd::prelude::*;
use vstd::string::*;

verus! {

/// How serious a diagnostic is.
#[derive(Debug, Clone, Copy, PartialEq, Eq, Structural)]
pub enum Severity {
    Error,
    Warning,
    Advice,
}

/// A message attached to a span of the source.
#[derive(Debug, Clone)]
pub struct Label {
    pub span: Span,
    pub text: String,
}

impl Label {
    pub fn new(span: Span, text: String) -> (r: Label)
        ensures
            r.span == span,
            r.text@ == text@,
    {
        Label { span, text }
    }
}

/// A diagnostic code `scope(number)`, such as `aes::lexer(unexpected_character)`.
#[derive(Debug, Clone)]
pub struct DiagnosticCode {
    pub scope: Option<String>,
    pub number: Option<String>,
}

impl DiagnosticCode {
    pub fn new() -> (r: DiagnosticCode)
        ensures
            r.scope is None,
            r.number is None,
    {
        DiagnosticCode { scope: None, number: None }
    }

    /// Whether either part of the code is set.
    pub fn is_some(&self) -> (r: bool)
        ensures
            r == (self.scope is Some || self.number is Some),
    {
        self.scope.is_some() || self.number.is_some()
    }

    /// The code as text: `scope(number)`, `scope`, `number`, or the empty string.
    pub fn render(&self) -> (r: String)
        ensures
            r@ == code_text(self.scope_text(), self.number_text()),
    {
        match (&self.scope, &self.number) {
            (Some(scope), Some(number)) => {
                let mut out = scope.clone();
                out.append("(");
                out.append(number.as_str());
                out.append(")");
                out
            },
            (Some(scope), None) => scope.clone(),
            (None, Some(number)) => number.clone(),
            (None, None) => String::new(),
        }
    }

    pub open spec fn scope_text(&self) -> Option<Seq<char>> {
        match self.scope {
            Some(s) => Some(s@),
            None => None,
        }
    }

    pub open spec fn number_text(&self) -> Option<Seq<char>> {
        match self.number {
            Some(s) => Some(s@),
            None => None,
        }
    }
}

impl Default for DiagnosticCode {
    fn default() -> (r: DiagnosticCode)
        ensures
            r.scope is None,
            r.number is None,
    {
        DiagnosticCode::new()
    }
}

/// The text of a code with the given parts.
pub open spec fn code_text(scope: Option<Seq<char>>, number: Option<Seq<char>>) -> Seq<char> {
    match (scope, number) {
        (Some(s), Some(n)) => s + "("@ + n + ")"@,
        (Some(s), None) => s,
        (None, Some(n)) => n,
        (None, None) => Seq::empty(),
    }
}

/// A compiler diagnostic: a message with a severity, an optional code, labelled
/// spans and an optional help text. Built with the `with_*` / `and_*` methods.
#[derive(Debug, Clone)]
pub struct Diagnostic {
    pub(crate) message: String,
    pub(crate) labels: Option<Vec<Label>>,
    pub(crate) help: Option<String>,
    pub(crate) severity: Severity,
    pub(crate) code: DiagnosticCode,
}

/// The content of a [`Diagnostic`] as plain values.
pub struct DiagnosticView {
    pub message: Seq<char>,
    pub labels: Option<Seq<(Span, Seq<char>)>>,
    pub help: Option<Seq<char>>,
    pub severity: Severity,
    pub scope: Option<Seq<char>>,
    pub number: Option<Seq<char>>,
}

pub open spec fn label_view(l: Label) -> (Span, Seq<char>) {
    (l.span, l.text@)
}

impl View for Diagnostic {
    type V = DiagnosticView;

    closed spec fn view(&self) -> DiagnosticView {
        DiagnosticView {
            message: self.message@,
            labels: match self.labels {
                Some(ls) => Some(ls@.map_values(|l: Label| label_view(l))),
                None => None,
            },
            help: match self.help {
                Some(h) => Some(h@),
                None => None,
            },
            severity: self.severity,
            scope: self.code.scope_text(),
            number: self.code.number_text(),
        }
    }
}

impl Diagnostic {
    fn new(message: String, severity: Severity) -> (d: Diagnostic)
        ensures
            d@.message == message@,
            d@.severity == severity,
            d@.labels is None,
            d@.help is None,
            d@.scope is None,
            d@.number is None,
    {
        Diagnostic { message, labels: None, help: None, severity, code: DiagnosticCode::new() }
    }

    pub fn error(message: String) -> (d: Diagnostic)
        ensures
            d@.message == message@,
            d@.severity == Severity::Error,
            d@.labels is None,
            d@.help is None,
            d@.scope is None,
            d@.number is None,
    {
        Diagnostic::new(message, Severity::Error)
    }

    pub fn warn(message: String) -> (d: Diagnostic)
        ensures
            d@.message == message@,
            d@.severity == Severity::Warning,
            d@.labels is None,
            d@.help is None,
            d@.scope is None,
            d@.number is None,
    {
        Diagnostic::new(message, Severity::Warning)
    }

    pub fn advice(message: String) -> (d: Diagnostic)
        ensures
            d@.message == message@,
            d@.severity == Severity::Advice,
            d@.labels is None,
            d@.help is None,
            d@.scope is None,
            d@.number is None,
    {
        Diagnostic::new(message, Severity::Advice)
    }

    /// Sets the code `scope(number)`; each part is set only if it was not set before.
    pub fn with_code(self, scope: &str, number: &str) -> (d: Diagnostic)
        ensures
            d@.scope == (if self@.scope is Some { self@.scope } else { Some(scope@) }),
            d@.number == (if self@.number is Some { self@.number } else { Some(number@) }),
            d@.message == self@.message,
            d@.labels == self@.labels,
            d@.help == self@.help,
            d@.severity == self@.severity,
    {
        self.with_code_scope(scope).with_code_number(number)
    }

    pub fn with_code_scope(self, scope: &str) -> (d: Diagnostic)
        ensures
            d@.scope == (if self@.scope is Some { self@.scope } else { Some(scope@) }),
            d@.number == self@.number,
            d@.message == self@.message,
            d@.labels == self@.labels,
            d@.help == self@.help,
            d@.severity == self@.severity,
    {
        let mut d = self;
        if d.code.scope.is_none() {
            d.code.scope = Some(String::from_str(scope));
        }
        d
    }

    pub fn with_code_number(self, number: &str) -> (d: Diagnostic)
        ensures
            d@.number == (if self@.number is Some { self@.number } else { Some(number@) }),
            d@.scope == self@.scope,
            d@.message == self@.message,
            d@.labels == self@.labels,
            d@.help == self@.help,
            d@.severity == self@.severity,
    {
        let mut d = self;
        if d.code.number.is_none() {
            d.code.number = Some(String::from_str(number));
        }
        d
    }

    /// Sets the help text shown below the diagnostic.
    pub fn with_help(self, help: String) -> (d: Diagnostic)
        ensures
            d@.help == Some(help@),
            d@.scope == self@.scope,
            d@.number == self@.number,
            d@.message == self@.message,
            d@.labels == self@.labels,
            d@.severity == self@.severity,
    {
        let mut d = self;
        d.help = Some(help);
        d
    }

    /// Replaces the labels with the single `label`.
    pub fn with_label(self, label: Label) -> (d: Diagnostic)
        ensures
            d@.labels == Some(seq![label_view(label)]),
            d@.help == self@.help,
            d@.scope == self@.scope,
            d@.number == self@.number,
            d@.message == self@.message,
            d@.severity == self@.severity,
    {
        let mut d = self;
        let mut v: Vec<Label> = Vec::new();
        v.push(label);
        proof {
            assert(v@.map_values(|l: Label| label_view(l)) =~= seq![label_view(label)]);
        }
        d.labels = Some(v);
        d
    }

    /// Replaces the labels with `labels`.
    pub fn with_labels(self, labels: Vec<Label>) -> (d: Diagnostic)
        ensures
            d@.labels == Some(labels@.map_values(|l: Label| label_view(l))),
            d@.help == self@.help,
            d@.scope == self@.scope,
            d@.number == self@.number,
            d@.message == self@.message,
            d@.severity == self@.severity,
    {
        let mut d = self;
        d.labels = Some(labels);
        d
    }

    /// Appends `label` to the labels.
    pub fn and_label(self, label: Label) -> (d: Diagnostic)
        ensures
            d@.labels == Some(
                match self@.labels {
                    Some(ls) => ls,
                    None => Seq::empty(),
                }.push(label_view(label)),
            ),
            d@.help == self@.help,
            d@.scope == self@.scope,
            d@.number == self@.number,
            d@.message == self@.message,
            d@.severity == self@.severity,
    {
        let mut d = self;
        let mut v: Vec<Label> = match d.labels {
            Some(ls) => ls,
            None => Vec::new(),
        };
        let ghost before = v@;
        v.push(label);
        proof {
            assert(v@.map_values(|l: Label| label_view(l)) =~= before.map_values(|l: Label| label_view(l)).push(label_view(label)));
        }
        d.labels = Some(v);
        d
    }

    /// Appends `labels` to the labels.
    pub fn and_labels(self, labels: Vec<Label>) -> (d: Diagnostic)
        ensures
            d@.labels == Some(
                match self@.labels {
                    Some(ls) => ls,
                    None => Seq::empty(),
                } + labels@.map_values(|l: Label| label_view(l)),
            ),
            d@.help == self@.help,
            d@.scope == self@.scope,
            d@.number == self@.number,
            d@.message == self@.message,
            d@.severity == self@.severity,
    {
        let mut d = self;
        let mut v: Vec<Label> = match d.labels {
            Some(ls) => ls,
            None => Vec::new(),
        };
        let ghost before = v@;
        let mut more = labels;
        let ghost added = more@;
        v.append(&mut more);
        proof {
            assert(v@.map_values(|l: Label| label_view(l)) =~= before.map_values(|l: Label| label_view(l)) + added.map_values(|l: Label| label_view(l)));
        }
        d.labels = Some(v);
        d
    }

    pub fn message(&self) -> (r: &str)
        ensures
            r@ == self@.message,
    {
        self.message.as_str()
    }

    pub fn severity(&self) -> (r: Severity)
        ensures
            r == self@.severity,
    {
        self.severity
    }

    pub fn code(&self) -> (r: &DiagnosticCode)
        ensures
            r.scope_text() == self@.scope,
            r.number_text() == self@.number,
    {
        &self.code
    }

    pub fn labels(&self) -> (r: Option<&[Label]>)
        ensures
            match self@.labels {
                Some(ls) => r is Some && r->0@.map_values(|l: Label| label_view(l)) == ls,
                None => r is None,
            },
    {
        match &self.labels {
            Some(ls) => Some(ls.as_slice()),
            None => None,
        }
    }

    pub fn help(&self) -> (r: Option<&str>)
        ensures
            match self@.help {
                Some(h) => r is Some && r->0@ == h,
                None => r is None,
            },
    {
        match &self.help {
            Some(h) => Some(h.as_str()),
            None => None,
        }
    }

    pub fn is_error(&self) -> (r: bool)
        ensures
            r == (self@.severity == Severity::Error),
    {
        match self.severity {
            Severity::Error => true,
            _ => false,
        }
    }
}

/// Whether any diagnostic of a sequence is an error.
pub open spec fn any_error(ds: Seq<Diagnostic>) -> bool {
    exists|i: int| 0 <= i < ds.len() && (#[trigger] ds[i])@.severity == Severity::Error
}

/// Receives the diagnostics that the compiler passes emit.
///
/// `reported` is the sequence of diagnostics received so far.
pub trait Reporter {
    spec fn reported(&self) -> Seq<Diagnostic>;

    fn report(&mut self, diagnostic: Diagnostic)
        ensures
            final(self).reported() == old(self).reported().push(diagnostic),
    ;

    fn has_errors(&self) -> (r: bool)
        ensures
            r == any_error(self.reported()),
    ;
}

/// Hands the diagnostics, in order, on to `to`.
pub fn forward<R: Reporter>(from: Vec<Diagnostic>, to: &mut R)
    ensures
        (*final(to)).reported() == (*old(to)).reported() + from@,
{
    let ghost all = from@;
    let ghost start = to.reported();
    let mut rest = from;
    proof {
        assert(start + all =~= to.reported() + rest@);
    }
    while rest.len() > 0
        invariant
            to.reported() + rest@ == start + all,
        decreases rest@.len(),
    {
        let ghost before = rest@;
        let d = rest.remove(0);
        to.report(d);
        proof {
            assert(to.reported() + rest@ =~= (to.reported().drop_last() + before));
        }
    }
    proof {
        assert(to.reported() + rest@ =~= to.reported());
    }
}

/// Diagnostics appended after ones that hold an error still hold one; appended ones
/// that hold an error make the whole hold one.
pub proof fn lemma_any_error_concat(a: Seq<Diagnostic>, b: Seq<Diagnostic>)
    ensures
        any_error(a) || any_error(b) ==> any_error(a + b),
{
    if any_error(a) {
        let i = choose|i: int| 0 <= i < a.len() && (#[trigger] a[i])@.severity == Severity::Error;
        assert((a + b)[i] == a[i]);
    } else if any_error(b) {
        let i = choose|i: int| 0 <= i < b.len() && (#[trigger] b[i])@.severity == Severity::Error;
        assert((a + b)[a.len() + i] == b[i]);
    }
}

} // verus!

use crate::diagnostic::{any_error, code_text, Diagnostic};
use crate::vfs::{FileId, FileRef};
use vstd::prelude::*;

verus! {

/// A reporter that keeps every diagnostic it receives, in order.
#[derive(Debug)]
pub struct Reporter {
    pub diagnostics: Vec<Diagnostic>,
}

impl Reporter {
    pub fn new() -> (r: Reporter)
        ensures
            r.diagnostics@.len() == 0,
    {
        Reporter { diagnostics: Vec::new() }
    }

    /// No diagnostic at all was received.
    pub fn is_clean(&self) -> (r: bool)
        ensures
            r == (self.diagnostics@.len() == 0),
    {
        self.diagnostics.len() == 0
    }
}

impl Reporter {
    /// The messages of the diagnostics, in order.
    pub fn messages(&self) -> (r: Vec<&str>)
        ensures
            r@.len() == self.diagnostics@.len(),
            forall|i: int| 0 <= i < r@.len() ==> (#[trigger] r@[i])@ == self.diagnostics@[i]@.message,
    {
        let mut out: Vec<&str> = Vec::new();
        let mut i: usize = 0;
        while i < self.diagnostics.len()
            invariant
                i <= self.diagnostics@.len(),
                out@.len() == i,
                forall|k: int| 0 <= k < i ==> (#[trigger] out@[k])@ == self.diagnostics@[k]@.message,
            decreases self.diagnostics@.len() - i,
        {
            out.push(self.diagnostics[i].message());
            i = i + 1;
        }
        out
    }
}

/// A file outside any file system, with the id `u32::MAX` and the path
/// `anonymous.aes`.
pub fn file_ref<'a>(source: &'a str) -> (r: FileRef<'a>)
    ensures
        r.source_of() == source,
        r.id_of().idx() == u32::MAX,
{
    FileRef::new(FileId::new(u32::MAX), "anonymous.aes", source)
}

/// The code of a diagnostic as one string, `scope(number)`.
pub trait URN {
    /// Whether the code has both parts.
    spec fn has_urn(&self) -> bool;

    spec fn urn_view(&self) -> Seq<char>;

    fn urn(&self) -> (r: String)
        requires
            self.has_urn(),
        ensures
            r@ == self.urn_view(),
    ;
}

impl URN for Diagnostic {
    open spec fn has_urn(&self) -> bool {
        self@.scope is Some && self@.number is Some
    }

    open spec fn urn_view(&self) -> Seq<char> {
        code_text(self@.scope, self@.number)
    }

    fn urn(&self) -> (r: String) {
        self.code().render()
    }
}

impl crate::diagnostic::Reporter for Reporter {
    open spec fn reported(&self) -> Seq<Diagnostic> {
        self.diagnostics@
    }

    fn report(&mut self, diagnostic: Diagnostic) {
        self.diagnostics.push(diagnostic);
    }

    fn has_errors(&self) -> (r: bool) {
        let mut i: usize = 0;
        while i < self.diagnostics.len()
            invariant
                i <= self.diagnostics@.len(),
                forall|k: int| 0 <= k < i ==> (#[trigger] self.diagnostics@[k])@.severity != crate::diagnostic::Severity::Error,
            decreases self.diagnostics@.len() - i,
        {
            if self.diagnostics[i].is_error() {
                return true;
            }
            i = i + 1;
        }
        false
    }
}

impl<'a, R: crate::diagnostic::Reporter> crate::diagnostic::Reporter for &'a mut R {
    open spec fn reported(&self) -> Seq<Diagnostic> {
        (**self).reported()
    }

    fn report(&mut self, diagnostic: Diagnostic) {
        (**self).report(diagnostic);
    }

    fn has_errors(&self) -> (r: bool) {
        (**self).has_errors()
    }
}

} // verus!

use vstd::prelude::*;
use crate::scanner::{scan, scanned_tokens, Scanner};
use crate::token::{tokens_view, Token};

verus! {

/// A report of invalid input: where it was found and what was wrong.
#[derive(Debug, Clone)]
pub struct Diagnostic {
    pub line: usize,
    pub spot: String,
    pub message: String,
}

/// Mathematical model of a `Diagnostic`.
pub struct DiagnosticView {
    pub line: nat,
    pub spot: Seq<char>,
    pub message: Seq<char>,
}

impl View for Diagnostic {
    type V = DiagnosticView;

    open spec fn view(&self) -> DiagnosticView {
        DiagnosticView { line: self.line as nat, spot: self.spot@, message: self.message@ }
    }
}

/// The models of a sequence of diagnostics.
pub open spec fn diagnostics_view(ds: Seq<Diagnostic>) -> Seq<DiagnosticView> {
    ds.map_values(|d: Diagnostic| d@)
}

/// A diagnostic at `line` with no spot and the given message.
pub open spec fn plain_diagnostic(line: nat, message: Seq<char>) -> DiagnosticView {
    DiagnosticView { line, spot: Seq::empty(), message }
}

/// The error sink of an interpreter session: collects diagnostics in the
/// order they are reported and remembers whether any was.
pub struct Lox {
    had_error: bool,
    diagnostics: Vec<Diagnostic>,
}

impl Lox {
    /// The reports so far, in order.
    pub closed spec fn reports(&self) -> Seq<DiagnosticView> {
        diagnostics_view(self.diagnostics@)
    }

    /// Whether any error has been reported.
    pub closed spec fn failed(&self) -> bool {
        self.had_error
    }

    /// A session with nothing reported.
    pub fn new() -> (r: Self)
        ensures
            r.reports() == Seq::<DiagnosticView>::empty(),
            !r.failed(),
    {
        let r = Lox { had_error: false, diagnostics: Vec::new() };
        proof {
            assert(r.reports() =~= Seq::<DiagnosticView>::empty());
        }
        r
    }

    /// Scans `source`, reporting its diagnostics to this session, and returns
    /// its tokens closed by the end-of-input marker.
    pub fn run(&mut self, source: String) -> (r: Vec<Token>)
        requires
            source@.len() < usize::MAX,
        ensures
            tokens_view(r@) == scanned_tokens(source@),
            final(self).reports() == old(self).reports() + scan(source@).diagnostics,
            final(self).failed() == (old(self).failed() || scan(source@).diagnostics.len() > 0),
    {
        let mut scanner = Scanner::new(source);
        let r = scanner.scan_tokens(self);
        proof {
            assert(Seq::<crate::token::TokenView>::empty() + scanned_tokens(source@)
                =~= scanned_tokens(source@));
        }
        r
    }

    /// Reports `message` at `line`.
    pub fn error(&mut self, line: usize, message: String)
        ensures
            final(self).reports() == old(self).reports().push(
                plain_diagnostic(line as nat, message@),
            ),
            final(self).failed(),
    {
        let spot = String::new();
        proof {
            assert(spot@ =~= Seq::<char>::empty());
        }
        self.report(line, spot, message);
    }

    fn report(&mut self, line: usize, spot: String, message: String)
        ensures
            final(self).reports() == old(self).reports().push(
                DiagnosticView { line: line as nat, spot: spot@, message: message@ },
            ),
            final(self).failed(),
    {
        let d = Diagnostic { line, spot, message };
        let ghost before = self.diagnostics@;
        self.diagnostics.push(d);
        proof {
            assert(diagnostics_view(self.diagnostics@) =~= diagnostics_view(before).push(d@));
        }
        self.had_error = true;
    }

    /// Whether any error has been reported.
    pub fn had_error(&self) -> (r: bool)
        ensures
            r == self.failed(),
    {
        self.had_error
    }

    /// The reports so far, in order.
    pub fn diagnostics(&self) -> (r: &Vec<Diagnostic>)
        ensures
            diagnostics_view(r@) == self.reports(),
    {
        &self.diagnostics
    }
}

} // verus!

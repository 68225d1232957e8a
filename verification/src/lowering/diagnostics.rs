//! Non-fatal semantic issues found while lowering, accumulated so a user
//! sees every problem in a document in one run.

use crate::text::dec_str;
use vstd::prelude::*;

verus! {

/// One recoverable issue.
#[derive(Debug, Clone, PartialEq)]
pub enum Diagnostic {
    /// A named reference that no earlier declaration satisfies.
    MissingName { name: String },
    /// A grammar construct that the lowering pass deliberately does not
    /// handle yet (a switch, a mapper, an anonymous field).
    Unsupported { construct: String },
}

/// The issues of one lowering pass, in the order they were found.
#[derive(Debug, Clone, PartialEq)]
pub struct Diagnostics(pub Vec<Diagnostic>);

/// Mirror of [`Diagnostic`].
pub enum DiagnosticV {
    MissingName { name: Seq<char> },
    Unsupported { construct: Seq<char> },
}

/// The mirror of one diagnostic.
pub open spec fn view_diagnostic(d: Diagnostic) -> DiagnosticV {
    match d {
        Diagnostic::MissingName { name } => DiagnosticV::MissingName { name: name@ },
        Diagnostic::Unsupported { construct } => DiagnosticV::Unsupported {
            construct: construct@,
        },
    }
}

/// The mirror of a diagnostic sequence.
pub open spec fn view_diagnostics(ds: Seq<Diagnostic>) -> Seq<DiagnosticV> {
    Seq::new(ds.len(), |i: int| view_diagnostic(ds[i]))
}

/// The one-line rendering of one diagnostic.
pub open spec fn diagnostic_message(d: DiagnosticV) -> Seq<char> {
    match d {
        DiagnosticV::MissingName { name } => "missing name: "@ + name + "\n"@,
        DiagnosticV::Unsupported { construct } => "unsupported construct: "@ + construct
            + "\n"@,
    }
}

/// The indented, line-per-issue list of several diagnostics.
pub open spec fn diagnostic_list(ds: Seq<DiagnosticV>) -> Seq<char>
    decreases ds.len(),
{
    if ds.len() == 0 {
        Seq::empty()
    } else {
        "  "@ + diagnostic_message(ds[0]) + "\n"@ + diagnostic_list(
            ds.subrange(1, ds.len() as int),
        )
    }
}

/// The rendering of a whole report: nothing, one issue, or a counted list.
pub open spec fn diagnostics_message(ds: Seq<DiagnosticV>) -> Seq<char> {
    if ds.len() == 0 {
        "no issues"@
    } else if ds.len() == 1 {
        diagnostic_message(ds[0])
    } else {
        dec_str(ds.len()) + " issues found:\n"@ + diagnostic_list(ds)
    }
}

/// Appending one diagnostic extends the rendered list by one line.
proof fn lemma_diagnostic_list_push(ds: Seq<DiagnosticV>, d: DiagnosticV)
    ensures
        diagnostic_list(ds.push(d)) == diagnostic_list(ds) + "  "@ + diagnostic_message(d)
            + "\n"@,
    decreases ds.len(),
{
    let extended = ds.push(d);
    if ds.len() == 0 {
        assert(extended.subrange(1, extended.len() as int) =~= Seq::<DiagnosticV>::empty());
        assert(diagnostic_list(Seq::<DiagnosticV>::empty()) == Seq::<char>::empty());
        assert(diagnostic_list(extended) =~= diagnostic_list(ds) + "  "@ + diagnostic_message(d)
            + "\n"@);
    } else {
        assert(extended.subrange(1, extended.len() as int) =~= ds.subrange(
            1,
            ds.len() as int,
        ).push(d));
        lemma_diagnostic_list_push(ds.subrange(1, ds.len() as int), d);
        assert(diagnostic_list(extended) =~= diagnostic_list(ds) + "  "@ + diagnostic_message(d)
            + "\n"@);
    }
}

impl Diagnostic {
    /// Renders this diagnostic for a human.
    pub fn message(&self) -> (r: String)
        ensures
            r@ == diagnostic_message(view_diagnostic(*self)),
    {
        let mut r = String::new();
        match self {
            Diagnostic::MissingName { name } => {
                r.append("missing name: ");
                r.append(name.as_str());
                r.append("\n");
            },
            Diagnostic::Unsupported { construct } => {
                r.append("unsupported construct: ");
                r.append(construct.as_str());
                r.append("\n");
            },
        }
        r
    }
}

impl Diagnostics {
    /// All issues, in the order they were found; empty means success.
    pub fn all_diagnostics(&self) -> (r: &[Diagnostic])
        ensures
            r@ == self.0@,
    {
        self.0.as_slice()
    }

    /// Records one more issue.
    pub(crate) fn push(&mut self, diag: Diagnostic)
        ensures
            final(self).0@ == old(self).0@.push(diag),
    {
        self.0.push(diag);
    }

    /// Renders the whole report for a human.
    pub fn message(&self) -> (r: String)
        ensures
            r@ == diagnostics_message(view_diagnostics(self.0@)),
    {
        let n = self.0.len();
        if n == 0 {
            let mut r = String::new();
            r.append("no issues");
            return r;
        }
        if n == 1 {
            return self.0[0].message();
        }
        let mut r = crate::text::u64_to_string(n as u64);
        r.append(" issues found:\n");
        let ghost header = r@;
        let mut i: usize = 0;
        while i < n
            invariant
                n == self.0@.len(),
                i <= n,
                r@ == header + diagnostic_list(view_diagnostics(self.0@).subrange(0, i as int)),
            decreases n - i,
        {
            proof {
                let prefix = view_diagnostics(self.0@).subrange(0, i as int);
                lemma_diagnostic_list_push(prefix, view_diagnostic(self.0@[i as int]));
                assert(prefix.push(view_diagnostic(self.0@[i as int])) =~= view_diagnostics(
                    self.0@,
                ).subrange(0, i + 1 as int));
            }
            r.append("  ");
            let line = self.0[i].message();
            r.append(line.as_str());
            r.append("\n");
            i += 1;
        }
        proof {
            assert(view_diagnostics(self.0@).subrange(0, n as int) =~= view_diagnostics(
                self.0@,
            ));
        }
        r
    }
}

impl Default for Diagnostics {
    /// An empty report.
    fn default() -> (r: Diagnostics)
        ensures
            r.0@ == Seq::<Diagnostic>::empty(),
    {
        Diagnostics(Vec::new())
    }
}

} // verus!

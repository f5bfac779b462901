//! The diagnostic session: the single point of truth for whether anything
//! has gone wrong across parse, resolve, assemble, link and execute, and
//! the terminal emitter of everything accumulated. Its lifecycle is the
//! state machine Clean -> Accumulating -> Emitted: diagnostics may be
//! pushed until emission, and the accumulated sequence is drained exactly
//! once.

use vstd::prelude::*;

verus! {

/// How severe one diagnostic is.
pub enum Severity {
    Error,
    Warning,
}

/// One structured diagnostic: a severity, a message, and an optional
/// source position.
pub struct Diagnostic {
    pub severity: Severity,
    pub message: String,
    pub line: Option<u64>,
    pub col: Option<u64>,
}

/// Where a session stands in its lifecycle.
pub enum SessionState {
    Clean,
    Accumulating,
    Emitted,
}

/// Whether any diagnostic in `s` is error-severity.
pub open spec fn has_error_in(s: Seq<Diagnostic>) -> bool {
    exists|i: int| 0 <= i < s.len() && #[trigger] s[i].severity is Error
}

/// The process-wide accumulator of diagnostics for one top-level
/// invocation.
pub struct Session {
    state: SessionState,
    diags: Vec<Diagnostic>,
}

impl Session {
    /// The diagnostics accumulated so far, in the order received.
    pub closed spec fn diags_view(self) -> Seq<Diagnostic> {
        self.diags@
    }

    /// Whether nothing has been pushed yet.
    pub closed spec fn is_clean(self) -> bool {
        self.state is Clean
    }

    /// Whether the session has already emitted.
    pub closed spec fn is_emitted(self) -> bool {
        self.state is Emitted
    }

    /// The state tracks the content: a session is clean exactly while it
    /// holds no diagnostics, and an emitted session has been drained.
    pub closed spec fn wf(self) -> bool {
        &&& self.state is Clean <==> (self.diags@.len() == 0 && !(self.state is Emitted))
        &&& self.state is Emitted ==> self.diags@.len() == 0
    }

    /// A fresh, clean session.
    pub fn new() -> (r: Session)
        ensures
            r.wf(),
            r.is_clean(),
            !r.is_emitted(),
            r.diags_view() == Seq::<Diagnostic>::empty(),
    {
        let r = Session { state: SessionState::Clean, diags: Vec::new() };
        proof {
            assert(r.diags_view() =~= Seq::<Diagnostic>::empty());
        }
        r
    }

    /// Push one diagnostic; the session is accumulating afterwards. Any
    /// phase may push until the session has emitted.
    pub fn add_diagnostic(&mut self, d: Diagnostic)
        requires
            old(self).wf(),
            !old(self).is_emitted(),
        ensures
            final(self).wf(),
            !final(self).is_clean(),
            !final(self).is_emitted(),
            final(self).diags_view() == old(self).diags_view().push(d),
    {
        self.diags.push(d);
        self.state = SessionState::Accumulating;
    }

    /// Push an error-severity diagnostic carrying `message` and no
    /// position.
    pub fn add_err(&mut self, message: String)
        requires
            old(self).wf(),
            !old(self).is_emitted(),
        ensures
            final(self).wf(),
            !final(self).is_clean(),
            !final(self).is_emitted(),
            final(self).diags_view().len() == old(self).diags_view().len() + 1,
            final(self).diags_view().drop_last() == old(self).diags_view(),
            final(self).diags_view().last().severity is Error,
            final(self).diags_view().last().message@ == message@,
            final(self).diags_view().last().line is None,
            final(self).diags_view().last().col is None,
            has_error_in(final(self).diags_view()),
    {
        let d = Diagnostic { severity: Severity::Error, message, line: None, col: None };
        self.add_diagnostic(d);
        proof {
            assert(self.diags_view().drop_last() =~= old(self).diags_view());
            assert(self.diags_view()[self.diags_view().len() - 1].severity is Error);
        }
    }

    /// Whether any pushed diagnostic is error-severity. Mutates nothing.
    pub fn has_errors(&self) -> (r: bool)
        ensures
            r == has_error_in(self.diags_view()),
    {
        let mut i: usize = 0;
        while i < self.diags.len()
            invariant
                i <= self.diags.len(),
                forall|j: int| 0 <= j < i ==> !(#[trigger] self.diags@[j].severity is Error),
            decreases self.diags.len() - i,
        {
            match self.diags[i].severity {
                Severity::Error => {
                    assert(self.diags@[i as int].severity is Error);
                    return true;
                },
                Severity::Warning => {},
            }
            i = i + 1;
        }
        false
    }

    /// Drain and return everything accumulated, in the order received,
    /// together with whether the invocation completed successfully: a
    /// clean session reports success and stays clean (the call is a
    /// no-op); an accumulating session transitions to Emitted exactly
    /// once and signals the caller to terminate with non-zero completion.
    pub fn emit_and_abort(&mut self) -> (r: (Vec<Diagnostic>, bool))
        requires
            old(self).wf(),
            !old(self).is_emitted(),
        ensures
            final(self).wf(),
            r.0@ == old(self).diags_view(),
            r.1 == old(self).is_clean(),
            r.1 == (old(self).diags_view().len() == 0),
            old(self).is_clean() ==> *final(self) == *old(self),
            !old(self).is_clean() ==> final(self).is_emitted() && final(self).diags_view()
                == Seq::<Diagnostic>::empty(),
    {
        match self.state {
            SessionState::Clean => {
                let out: Vec<Diagnostic> = Vec::new();
                proof {
                    assert(out@ =~= old(self).diags_view());
                }
                (out, true)
            },
            _ => {
                let mut out: Vec<Diagnostic> = Vec::new();
                core::mem::swap(&mut self.diags, &mut out);
                self.state = SessionState::Emitted;
                proof {
                    assert(self.diags_view() =~= Seq::<Diagnostic>::empty());
                }
                (out, false)
            },
        }
    }

    /// The top-level dedup contract: a caller holding a failure message
    /// from a lower layer reports it only when nothing is recorded yet, so
    /// one root cause never surfaces twice. Afterwards the session always
    /// holds an error.
    pub fn report_failure(&mut self, message: String)
        requires
            old(self).wf(),
            !old(self).is_emitted(),
        ensures
            final(self).wf(),
            !final(self).is_clean(),
            !final(self).is_emitted(),
            has_error_in(final(self).diags_view()),
            has_error_in(old(self).diags_view()) ==> *final(self) == *old(self),
            !has_error_in(old(self).diags_view()) ==> {
                &&& final(self).diags_view().len() == old(self).diags_view().len() + 1
                &&& final(self).diags_view().drop_last() == old(self).diags_view()
                &&& final(self).diags_view().last().severity is Error
                &&& final(self).diags_view().last().message@ == message@
            },
    {
        if !self.has_errors() {
            self.add_err(message);
        }
    }
}

} // verus!

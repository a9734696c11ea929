//! A session collects the diagnostics of a task and whether the task failed.
use vstd::prelude::*;

use crate::diagnostic::{DiagData, Diagnostic};

verus! {

/// Whether any of the diagnostics is an error.
pub open spec fn has_error(ds: Seq<DiagData>) -> bool {
    exists|i: int| 0 <= i < ds.len() && ds[i].0 is Error
}

/// The mathematical content of a list of diagnostics.
pub open spec fn diags_data(ds: Seq<Diagnostic>) -> Seq<DiagData> {
    ds.map_values(|d: Diagnostic| d.data())
}

/// Collects diagnostics for a task and keeps track of whether it failed.
#[derive(Debug)]
pub struct Session {
    /// Whether the session is considered to be failed.
    failed: bool,
    /// Collected diagnostics.
    diagnostics: Vec<Diagnostic>,
}

impl Session {
    /// Whether the session is failed.
    pub closed spec fn is_failed(&self) -> bool {
        self.failed
    }

    /// The diagnostics reported so far, in order.
    pub closed spec fn reported(&self) -> Seq<DiagData> {
        diags_data(self.diagnostics@)
    }

    /// Creates a new session that is not failed and holds no diagnostics.
    pub fn new() -> (r: Self)
        ensures
            !r.is_failed(),
            r.reported() == Seq::<DiagData>::empty(),
    {
        let s = Session { failed: false, diagnostics: Vec::new() };
        assert(s.reported() =~= Seq::<DiagData>::empty());
        s
    }

    /// Reports a diagnostic, which is added to the session.
    pub fn report(&mut self, diagnostic: Diagnostic)
        ensures
            final(self).is_failed() == old(self).is_failed(),
            final(self).reported() == old(self).reported().push(diagnostic.data()),
    {
        let ghost d = diagnostic.data();
        self.diagnostics.push(diagnostic);
        assert(self.reported() =~= old(self).reported().push(d));
    }

    /// Marks the session as failed.
    pub fn mark_failed(&mut self)
        ensures
            final(self).is_failed(),
            final(self).reported() == old(self).reported(),
    {
        self.failed = true;
    }

    /// Returns the diagnostics reported so far.
    pub fn diagnostics(&self) -> (r: &Vec<Diagnostic>)
        ensures
            diags_data(r@) == self.reported(),
    {
        &self.diagnostics
    }

    /// Consumes the session and hands back its diagnostics: as `Ok` if it is not
    /// failed, as `Err` if it is.
    pub fn try_finish(self) -> (r: Result<Vec<Diagnostic>, Vec<Diagnostic>>)
        ensures
            r is Ok <==> !self.is_failed(),
            match r {
                Ok(ds) => diags_data(ds@) == self.reported(),
                Err(ds) => diags_data(ds@) == self.reported(),
            },
    {
        if self.failed {
            Err(self.diagnostics)
        } else {
            Ok(self.diagnostics)
        }
    }
}

} // verus!

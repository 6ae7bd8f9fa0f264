use vstd::prelude::*;

verus! {

/// One persistence operation the surrounding layer is asked to perform next.
pub enum SinkAction {
    /// Remove every record previously stored for this source.
    Clear,
    /// Replace-or-insert the record of the profile with this index.
    Upsert(u64),
    /// Nothing is left to do for this file.
    Finished,
}

/// The persistence plan of one file: clearing strictly precedes every
/// upsert, profiles are written one at a time in ascending index order, and
/// a persistence failure aborts the remaining profiles — no retry, no
/// rollback of profiles already written.
///
/// The surrounding layer asks `next_action`, performs the operation, and
/// reports the outcome back; all sequencing decisions live here.
pub struct RunPlan {
    pub n_profiles: u64,
    pub cleared: bool,
    pub failed: bool,
    pub next: u64,
}

impl RunPlan {
    /// The plan never points past the profile count, and nothing is written
    /// before the source is cleared.
    pub open spec fn wf(&self) -> bool {
        &&& self.next <= self.n_profiles
        &&& !self.cleared ==> self.next == 0
    }

    /// A fresh plan for a file of `n_profiles` profiles.
    pub fn new(n_profiles: u64) -> (r: RunPlan)
        ensures
            r.wf(),
            r.n_profiles == n_profiles,
            !r.cleared,
            !r.failed,
            r.next == 0,
    {
        RunPlan { n_profiles, cleared: false, failed: false, next: 0 }
    }

    /// The next persistence operation: clear first, then one upsert per
    /// profile in ascending order, and nothing more after a failure or the
    /// last profile.
    pub fn next_action(&self) -> (a: SinkAction)
        requires
            self.wf(),
        ensures
            a is Clear <==> !self.cleared,
            a is Upsert ==> self.cleared && !self.failed && a->0 == self.next && self.next
                < self.n_profiles,
            a is Finished <==> self.cleared && (self.failed || self.next == self.n_profiles),
    {
        if !self.cleared {
            SinkAction::Clear
        } else if self.failed || self.next == self.n_profiles {
            SinkAction::Finished
        } else {
            SinkAction::Upsert(self.next)
        }
    }

    /// Records the outcome of the clear operation. A failed clear aborts the
    /// file before anything is written.
    pub fn note_cleared(&mut self, ok: bool)
        requires
            old(self).wf(),
            !old(self).cleared,
        ensures
            final(self).wf(),
            final(self).cleared,
            final(self).failed == !ok,
            final(self).next == 0,
            final(self).n_profiles == old(self).n_profiles,
    {
        self.cleared = true;
        self.failed = !ok;
    }

    /// Records the outcome of one upsert: on success the plan moves to the
    /// next profile; on failure it aborts the remaining profiles.
    pub fn note_upserted(&mut self, ok: bool)
        requires
            old(self).wf(),
            old(self).cleared,
            !old(self).failed,
            old(self).next < old(self).n_profiles,
        ensures
            final(self).wf(),
            final(self).cleared,
            final(self).n_profiles == old(self).n_profiles,
            ok ==> !final(self).failed && final(self).next == old(self).next + 1,
            !ok ==> final(self).failed && final(self).next == old(self).next,
    {
        if ok {
            self.next = self.next + 1;
        } else {
            self.failed = true;
        }
    }
}

} // verus!

use vstd::prelude::*;

verus! {

/// The coordinator's state as numbers: how many input buckets there are,
/// how many have been opened, which one is active, and whether reading
/// is over.
pub struct CoordinatorView {
    pub total: nat,
    pub opened: nat,
    pub active: Option<nat>,
    pub reading_finished: bool,
}

pub open spec fn view_wf(v: CoordinatorView) -> bool {
    &&& v.opened <= v.total
    &&& match v.active {
        Some(i) => i + 1 == v.opened && !v.reading_finished,
        None => v.reading_finished && v.opened == v.total,
    }
}

/// The one transition of the coordinator: when the active bucket is
/// exhausted, the next queued bucket becomes active, or, with none left,
/// the slot is cleared and reading is over. Otherwise nothing changes.
pub open spec fn advance_model(v: CoordinatorView, exhausted: bool) -> CoordinatorView {
    if exhausted && v.active is Some {
        if v.opened < v.total {
            CoordinatorView { active: Some(v.opened), opened: v.opened + 1, ..v }
        } else {
            CoordinatorView { active: None, reading_finished: true, ..v }
        }
    } else {
        v
    }
}

/// Work left: the buckets not opened yet, and the active one.
pub open spec fn remaining(v: CoordinatorView) -> nat {
    (v.total - v.opened) as nat + if v.active is Some { 1nat } else { 0nat }
}

/// The state after `n` passes that each end with the active bucket
/// exhausted.
pub open spec fn advance_n(v: CoordinatorView, n: nat) -> CoordinatorView
    decreases n,
{
    if n == 0 {
        v
    } else {
        advance_n(advance_model(v, true), (n - 1) as nat)
    }
}

/// Every transition on an exhausted bucket keeps the state well formed and
/// takes one unit off the work left, until reading is over.
pub proof fn lemma_advance_progress(v: CoordinatorView)
    requires
        view_wf(v),
    ensures
        view_wf(advance_model(v, true)),
        !v.reading_finished ==> remaining(advance_model(v, true)) + 1 == remaining(v),
        v.reading_finished ==> advance_model(v, true) == v,
{
}

/// Reading ends: after as many exhausted passes as there is work left, the
/// active slot is empty and reading is marked finished.
pub proof fn lemma_reading_terminates(v: CoordinatorView, n: nat)
    requires
        view_wf(v),
        n >= remaining(v),
    ensures
        advance_n(v, n).reading_finished,
        advance_n(v, n).active is None,
    decreases n,
{
    lemma_advance_progress(v);
    if n > 0 {
        lemma_reading_terminates(advance_model(v, true), (n - 1) as nat);
    }
}

/// The queue of input buckets and the active one. Access is serialised by
/// the caller: the transition runs under exclusive access.
pub struct BucketCoordinator {
    paths: Vec<String>,
    opened: usize,
    active: Option<usize>,
    reading_finished: bool,
}

/// What the transition did.
#[derive(Clone, Copy, PartialEq, Eq, Structural, Debug)]
pub enum Advance {
    /// The active bucket was not exhausted, or there was none.
    Unchanged,
    /// The bucket of this index was opened and is now active.
    Opened(usize),
    /// No bucket was left: reading is over.
    Finished,
}

impl BucketCoordinator {
    pub closed spec fn view(&self) -> CoordinatorView {
        CoordinatorView {
            total: self.paths@.len(),
            opened: self.opened as nat,
            active: match self.active {
                Some(i) => Some(i as nat),
                None => None,
            },
            reading_finished: self.reading_finished,
        }
    }

    pub closed spec fn paths_view(&self) -> Seq<String> {
        self.paths@
    }

    pub closed spec fn wf(&self) -> bool {
        view_wf(self@)
    }

    /// Queues the input buckets in order and opens the first one. With no
    /// input, reading is over at once.
    pub fn new(paths: Vec<String>) -> (r: Self)
        ensures
            r.wf(),
            r.paths_view() == paths@,
            r@.total == paths@.len(),
            paths@.len() > 0 ==> r@.active == Some(0nat) && r@.opened == 1,
            paths@.len() == 0 ==> r@.active is None && r@.reading_finished,
    {
        if paths.len() > 0 {
            BucketCoordinator { paths, opened: 1, active: Some(0), reading_finished: false }
        } else {
            BucketCoordinator { paths, opened: 0, active: None, reading_finished: true }
        }
    }

    /// The active bucket, if one is open.
    pub fn try_take_active(&self) -> (r: Option<usize>)
        requires
            self.wf(),
        ensures
            r matches Some(i) ==> self@.active == Some(i as nat) && i < self.paths_view().len(),
            r is None ==> self@.active is None,
    {
        self.active
    }

    pub fn is_reading_finished(&self) -> (r: bool)
        ensures
            r == self@.reading_finished,
    {
        self.reading_finished
    }

    /// The path of the input bucket at `index`.
    pub fn path(&self, index: usize) -> (r: &String)
        requires
            index < self.paths_view().len(),
        ensures
            *r == self.paths_view()[index as int],
    {
        &self.paths[index]
    }

    pub fn buckets_count(&self) -> (r: usize)
        ensures
            r == self@.total,
    {
        self.paths.len()
    }

    /// The position of the newest opened bucket among all of them, counted
    /// from one, for progress reports.
    pub fn opened_count(&self) -> (r: usize)
        ensures
            r == self@.opened,
    {
        self.opened
    }

    /// Runs the transition, told whether the active bucket's reader is
    /// exhausted.
    pub fn advance_if_exhausted(&mut self, exhausted: bool) -> (r: Advance)
        requires
            old(self).wf(),
        ensures
            final(self).wf(),
            final(self)@ == advance_model(old(self)@, exhausted),
            final(self).paths_view() == old(self).paths_view(),
            r == (if !(exhausted && old(self)@.active is Some) {
                Advance::Unchanged
            } else if old(self)@.opened < old(self)@.total {
                Advance::Opened(old(self)@.opened as usize)
            } else {
                Advance::Finished
            }),
    {
        if !exhausted || self.active.is_none() {
            return Advance::Unchanged;
        }
        if self.opened < self.paths.len() {
            let i = self.opened;
            self.active = Some(i);
            self.opened = i + 1;
            Advance::Opened(i)
        } else {
            self.active = None;
            self.reading_finished = true;
            Advance::Finished
        }
    }
}

} // verus!

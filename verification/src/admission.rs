//! Admission of connections: a count of the handlers at work, held at or
//! below a fixed limit. A connection that finds no free place is dropped; it
//! is neither queued nor tried again.

use vstd::prelude::*;

verus! {

/// The places for handlers and how many are taken.
pub struct Admission {
    live: usize,
    limit: usize,
}

/// The count as contracts see it.
pub struct AdmissionView {
    /// Handlers at work.
    pub live: nat,
    /// The most that may be at work at once.
    pub limit: nat,
}

/// The count after a connection asked for a place, and whether it got one:
/// it does while fewer than `limit` handlers are at work.
pub open spec fn admit_spec(v: AdmissionView) -> (AdmissionView, bool) {
    if v.live < v.limit {
        (AdmissionView { live: v.live + 1, limit: v.limit }, true)
    } else {
        (v, false)
    }
}

/// The count after a handler ended.
pub open spec fn release_spec(v: AdmissionView) -> AdmissionView {
    if v.live > 0 {
        AdmissionView { live: (v.live - 1) as nat, limit: v.limit }
    } else {
        v
    }
}

/// The count after `n` connections in a row asked for a place.
pub open spec fn after_arrivals(v: AdmissionView, n: nat) -> AdmissionView
    decreases n,
{
    if n == 0 {
        v
    } else {
        admit_spec(after_arrivals(v, (n - 1) as nat)).0
    }
}

impl View for Admission {
    type V = AdmissionView;

    closed spec fn view(&self) -> AdmissionView {
        AdmissionView { live: self.live as nat, limit: self.limit as nat }
    }
}

impl Admission {
    /// No more handlers are at work than the limit allows.
    pub closed spec fn wf(&self) -> bool {
        self.live <= self.limit
    }

    /// A count with no handler at work and places for `limit`.
    pub fn new(limit: usize) -> (admission: Self)
        ensures
            admission.wf(),
            admission@ == (AdmissionView { live: 0, limit: limit as nat }),
    {
        Admission { live: 0, limit }
    }

    /// Handlers at work.
    pub fn live(&self) -> (live: usize)
        ensures
            live == self@.live,
    {
        self.live
    }

    /// The most handlers that may be at work at once.
    pub fn limit(&self) -> (limit: usize)
        ensures
            limit == self@.limit,
    {
        self.limit
    }

    /// Asks for a place for one more handler. Where none is free the
    /// connection is to be dropped unanswered.
    pub fn try_admit(&mut self) -> (admitted: bool)
        requires
            old(self).wf(),
        ensures
            final(self).wf(),
            (final(self)@, admitted) == admit_spec(old(self)@),
    {
        if self.live < self.limit {
            self.live = self.live + 1;
            true
        } else {
            false
        }
    }

    /// Gives back the place of a handler that ended.
    pub fn release(&mut self)
        requires
            old(self).wf(),
        ensures
            final(self).wf(),
            final(self)@ == release_spec(old(self)@),
    {
        if self.live > 0 {
            self.live = self.live - 1;
        }
    }
}

/// Neither a request for a place nor an ended handler brings the count above
/// the limit.
pub proof fn lemma_limit_holds(v: AdmissionView)
    requires
        v.live <= v.limit,
    ensures
        admit_spec(v).0.live <= v.limit,
        admit_spec(v).0.limit == v.limit,
        release_spec(v).live <= v.limit,
        release_spec(v).limit == v.limit,
{
}

/// While no handler ends, `n` connections in a row fill the places and no
/// more: the count is then the smaller of the limit and what it was plus `n`.
pub proof fn lemma_after_arrivals(v: AdmissionView, n: nat)
    requires
        v.live <= v.limit,
    ensures
        after_arrivals(v, n).limit == v.limit,
        after_arrivals(v, n).live == if v.live + n <= v.limit {
            v.live + n
        } else {
            v.limit
        },
    decreases n,
{
    if n > 0 {
        lemma_after_arrivals(v, (n - 1) as nat);
    }
}

/// With every place taken and no handler ended, the next connection is
/// refused and the count stays as it is: after `limit` connections were
/// admitted to an idle server, one more is dropped.
pub proof fn lemma_full_house_refuses(limit: nat)
    ensures
        !admit_spec(after_arrivals(AdmissionView { live: 0, limit }, limit)).1,
        admit_spec(after_arrivals(AdmissionView { live: 0, limit }, limit)).0 == after_arrivals(
            AdmissionView { live: 0, limit },
            limit,
        ),
{
    lemma_after_arrivals(AdmissionView { live: 0, limit }, limit);
}

} // verus!

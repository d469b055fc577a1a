//! The course of a reconciliation once it is planned: every visit in its order, then every
//! deletion in its order.
use crate::deletions::{
    asks_deletion, Deletion, deletions, in_deletion_order, is_asked, is_served,
};
use crate::local_file::{LocalError, LocalErrorView};
use crate::path::{check_view, PathError, PathErrorView};
use crate::path_map::increasing;
use crate::plan::visit_paths;
use crate::steps::{asked_transfer, queue_transfer, Step, Transfer, TransferView, Visit, VisitView};
use crate::sync_error::{SyncError, SyncErrorView};
use vstd::prelude::*;

verus! {

/// What a visit makes happen.
#[derive(Debug, Clone, PartialEq, Eq)]
pub enum Effect {
    /// Nothing, or nothing yet: deletions come last.
    Nothing,
    /// The record of both directories is renewed.
    Record,
    /// The record is dropped.
    Forget,
    /// A remote folder is created, without replacing anything, and recorded.
    CreateRemoteFolder,
    /// A local directory is created and recorded.
    CreateLocalFolder,
    /// A transfer is queued.
    Transfer(Transfer),
    /// Both versions of a file are kept.
    KeepBoth,
}

/// What a visit makes happen, by its values.
pub enum EffectView {
    Nothing,
    Record,
    Forget,
    CreateRemoteFolder,
    CreateLocalFolder,
    Transfer(TransferView),
    KeepBoth,
}

impl View for Effect {
    type V = EffectView;

    open spec fn view(&self) -> EffectView {
        match *self {
            Effect::Nothing => EffectView::Nothing,
            Effect::Record => EffectView::Record,
            Effect::Forget => EffectView::Forget,
            Effect::CreateRemoteFolder => EffectView::CreateRemoteFolder,
            Effect::CreateLocalFolder => EffectView::CreateLocalFolder,
            Effect::Transfer(transfer) => EffectView::Transfer(transfer@),
            Effect::KeepBoth => EffectView::KeepBoth,
        }
    }
}

/// What a visit makes happen, or why the reconciliation stops at it. `fault` tells why its path is
/// refused, if it is.
pub open spec fn effect_of(visit: VisitView, fault: Option<PathErrorView>) -> Result<
    EffectView,
    SyncErrorView,
> {
    if fault is Some {
        Err(SyncErrorView::Local(LocalErrorView::Path(fault->0)))
    } else {
        match visit.step {
            Step::Record => Ok(EffectView::Record),
            Step::Forget => Ok(EffectView::Forget),
            Step::CreateRemoteFolder => Ok(EffectView::CreateRemoteFolder),
            Step::CreateLocalFolder => Ok(EffectView::CreateLocalFolder),
            Step::Upload => Ok(EffectView::Transfer(asked_transfer(visit)->0)),
            Step::Download => Ok(EffectView::Transfer(asked_transfer(visit)->0)),
            Step::TypeConflict => Err(SyncErrorView::TypeConflict(visit.path)),
            Step::DirectoryConflict => Err(SyncErrorView::DirectoryConflict(visit.path)),
            Step::KeepBoth => Ok(EffectView::KeepBoth),
            _ => Ok(EffectView::Nothing),
        }
    }
}

/// What a visit makes happen, where `checked` is the outcome of the check of its path.
pub fn effect(visit: &Visit, checked: Result<(), PathError>) -> (outcome: Result<Effect, SyncError>)
    ensures
        match outcome {
            Ok(effect) => effect_of(visit@, check_view(checked)) == Ok::<EffectView, SyncErrorView>(
                effect@,
            ),
            Err(error) => effect_of(visit@, check_view(checked)) == Err::<
                EffectView,
                SyncErrorView,
            >(error@),
        },
{
    match checked {
        Ok(()) => {},
        Err(error) => {
            return Err(SyncError::Local(LocalError::Path(error)));
        },
    }
    match visit.step {
        Step::Record => Ok(Effect::Record),
        Step::Forget => Ok(Effect::Forget),
        Step::CreateRemoteFolder => Ok(Effect::CreateRemoteFolder),
        Step::CreateLocalFolder => Ok(Effect::CreateLocalFolder),
        Step::TypeConflict => Err(SyncError::TypeConflict(visit.path.duplicate())),
        Step::DirectoryConflict => Err(SyncError::DirectoryConflict(visit.path.duplicate())),
        Step::KeepBoth => Ok(Effect::KeepBoth),
        _ => match queue_transfer(visit) {
            Some(transfer) => Ok(Effect::Transfer(transfer)),
            None => Ok(Effect::Nothing),
        },
    }
}

/// The visits and deletions of a reconciliation, with how far it has come.
#[derive(Debug)]
pub struct Agenda {
    visits: Vec<Visit>,
    deletions: Vec<Deletion>,
    visited: usize,
    deleted: usize,
}

/// What comes next in a reconciliation.
#[derive(Debug)]
pub enum Job<'a> {
    /// A path is visited.
    Visit(&'a Visit),
    /// An entry is deleted after a last look.
    Delete(&'a Deletion),
    /// Everything is done.
    Finished,
}

impl Agenda {
    /// The visits, in their order.
    pub closed spec fn visits(&self) -> Seq<Visit> {
        self.visits@
    }

    /// The deletions, in their order.
    pub closed spec fn deletions(&self) -> Seq<Deletion> {
        self.deletions@
    }

    /// How many visits are done.
    pub closed spec fn visited(&self) -> nat {
        self.visited as nat
    }

    /// How many deletions are done.
    pub closed spec fn deleted(&self) -> nat {
        self.deleted as nat
    }

    /// The deletions are those that the visits ask for, in their order, and none was done before
    /// every visit was.
    pub open spec fn wf(&self) -> bool {
        &&& self.visited() <= self.visits().len()
        &&& self.deleted() <= self.deletions().len()
        &&& self.deleted() > 0 ==> self.visited() == self.visits().len()
        &&& in_deletion_order(self.deletions())
        &&& forall|i: int|
            0 <= i < self.deletions().len() ==> is_asked(
                #[trigger] self.deletions()[i],
                self.visits(),
            )
        &&& forall|k: int|
            0 <= k < self.visits().len() && asks_deletion((#[trigger] self.visits()[k])@)
                ==> is_served(self.visits()[k], self.deletions())
    }

    /// The agenda of a plan.
    pub fn new(visits: Vec<Visit>) -> (agenda: Agenda)
        requires
            increasing(visit_paths(visits@)),
        ensures
            agenda.wf(),
            agenda.visits() == visits@,
            agenda.visited() == 0,
            agenda.deleted() == 0,
    {
        let list = deletions(&visits);
        Agenda { visits, deletions: list, visited: 0, deleted: 0 }
    }

    /// What comes next: a deletion only after every visit is done.
    pub fn next(&self) -> (job: Job<'_>)
        requires
            self.wf(),
        ensures
            match job {
                Job::Visit(visit) => self.visited() < self.visits().len() && *visit
                    == self.visits()[self.visited() as int],
                Job::Delete(deletion) => self.visited() == self.visits().len() && self.deleted()
                    < self.deletions().len() && *deletion == self.deletions()[self.deleted() as int],
                Job::Finished => self.visited() == self.visits().len() && self.deleted()
                    == self.deletions().len(),
            },
    {
        if self.visited < self.visits.len() {
            Job::Visit(&self.visits[self.visited])
        } else if self.deleted < self.deletions.len() {
            Job::Delete(&self.deletions[self.deleted])
        } else {
            Job::Finished
        }
    }

    /// Takes note that the job that came next is done. Where none was left, nothing changes.
    pub fn advance(&mut self)
        requires
            old(self).wf(),
        ensures
            final(self).wf(),
            final(self).visits() == old(self).visits(),
            final(self).deletions() == old(self).deletions(),
            ({
                let visiting = old(self).visited() < old(self).visits().len();
                let deleting = !visiting && old(self).deleted() < old(self).deletions().len();
                &&& final(self).visited() == old(self).visited() + if visiting {
                    1nat
                } else {
                    0nat
                }
                &&& final(self).deleted() == old(self).deleted() + if deleting {
                    1nat
                } else {
                    0nat
                }
            }),
    {
        if self.visited < self.visits.len() {
            self.visited += 1;
        } else if self.deleted < self.deletions.len() {
            self.deleted += 1;
        }
    }
}

} // verus!

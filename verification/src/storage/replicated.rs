//! Two backends that hold the same document: what a save on both and a load
//! from one after the other come to.

use crate::error::StoreError;
use vstd::prelude::*;

verus! {

/// A primary and a secondary backend that replicate one document.
#[derive(Debug, PartialEq, Eq)]
pub struct Replicated<P, S> {
    pub primary: P,
    pub secondary: S,
}

impl<P, S> Replicated<P, S> {
    /// The replicated backend over `primary` and `secondary`.
    pub fn new(primary: P, secondary: S) -> (r: Self)
        ensures
            r.primary == primary,
            r.secondary == secondary,
    {
        Replicated { primary, secondary }
    }
}

/// One of the two replicas.
#[derive(Debug, PartialEq, Eq, Structural, Clone, Copy)]
pub enum Replica {
    Primary,
    Secondary,
}

/// What a load does next.
#[derive(Debug, PartialEq, Eq)]
pub enum LoadStep {
    /// Ask this replica for the document.
    Ask(Replica),
    /// The load has ended with this result.
    Done(Result<Vec<u8>, StoreError>),
}

/// What a save comes to when the two replicas answered `primary` and
/// `secondary`: it succeeds where at least one of them did, and fails with
/// both errors where both failed.
pub open spec fn save_result(primary: Result<(), StoreError>, secondary: Result<(), StoreError>)
    -> Result<(), StoreError> {
    match (primary, secondary) {
        (Err(first), Err(second)) => Err(
            StoreError::BothFailed { primary: Box::new(first), secondary: Box::new(second) },
        ),
        _ => Ok(()),
    }
}

/// What a load does after `asked` gave `answer`: a document from the primary
/// ends the load, a failure of the primary turns to the secondary, and the
/// answer of the secondary ends the load whatever it is.
pub open spec fn load_step_after(asked: Replica, answer: Result<Vec<u8>, StoreError>) -> LoadStep {
    match asked {
        Replica::Primary => match answer {
            Ok(document) => LoadStep::Done(Ok(document)),
            Err(_) => LoadStep::Ask(Replica::Secondary),
        },
        Replica::Secondary => LoadStep::Done(answer),
    }
}

/// What a load comes to when the primary answers `primary` and the
/// secondary, if it is asked, answers `secondary`.
pub open spec fn load_result(
    primary: Result<Vec<u8>, StoreError>,
    secondary: Result<Vec<u8>, StoreError>,
) -> Result<Vec<u8>, StoreError> {
    match primary {
        Ok(document) => Ok(document),
        Err(_) => secondary,
    }
}

/// The result of a save that was sent to both replicas, from their two
/// answers.
pub fn save_outcome(primary: Result<(), StoreError>, secondary: Result<(), StoreError>) -> (r:
    Result<(), StoreError>)
    ensures
        r == save_result(primary, secondary),
        r is Ok <==> primary is Ok || secondary is Ok,
{
    match primary {
        Ok(_) => Ok(()),
        Err(first) => match secondary {
            Ok(_) => Ok(()),
            Err(second) => Err(
                StoreError::BothFailed { primary: Box::new(first), secondary: Box::new(second) },
            ),
        },
    }
}

/// The first step of a load: ask the primary.
pub fn load_start() -> (step: LoadStep)
    ensures
        step == LoadStep::Ask(Replica::Primary),
{
    LoadStep::Ask(Replica::Primary)
}

/// The step of a load that follows the answer of the replica that was asked.
pub fn load_next(asked: Replica, answer: Result<Vec<u8>, StoreError>) -> (step: LoadStep)
    ensures
        step == load_step_after(asked, answer),
{
    match asked {
        Replica::Primary => match answer {
            Ok(document) => LoadStep::Done(Ok(document)),
            Err(_) => LoadStep::Ask(Replica::Secondary),
        },
        Replica::Secondary => LoadStep::Done(answer),
    }
}

/// A load that follows its steps ends with the document of the primary
/// where the primary has one, whatever the secondary holds, and with the
/// answer of the secondary only where the primary failed.
pub proof fn lemma_load_prefers_primary(
    primary: Result<Vec<u8>, StoreError>,
    secondary: Result<Vec<u8>, StoreError>,
)
    ensures
        primary is Ok ==> load_step_after(Replica::Primary, primary) == LoadStep::Done(primary),
        primary is Err ==> load_step_after(Replica::Primary, primary) == LoadStep::Ask(
            Replica::Secondary,
        ),
        load_step_after(Replica::Secondary, secondary) == LoadStep::Done(secondary),
        load_result(primary, secondary) == if primary is Ok {
            primary
        } else {
            secondary
        },
{
}

/// A save fails only where both replicas failed.
pub proof fn lemma_save_needs_one(primary: Result<(), StoreError>, secondary: Result<(), StoreError>)
    ensures
        save_result(primary, secondary) is Ok <==> primary is Ok || secondary is Ok,
        primary is Ok && secondary is Err ==> save_result(primary, secondary) is Ok,
        primary is Err && secondary is Ok ==> save_result(primary, secondary) is Ok,
{
}

} // verus!

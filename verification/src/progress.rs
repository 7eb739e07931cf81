//! Progress messages streamed to the frontend while the optimizer runs.

use std::sync::mpsc::Sender;

use vstd::prelude::*;

verus! {

#[verifier::external_type_specification]
#[verifier::external_body]
#[verifier::reject_recursive_types(T)]
pub struct ExSender<T>(Sender<T>);

/// The drive train that a trajectory's samples are for.
#[derive(Debug, Clone, Copy, PartialEq, Eq)]
pub enum DriveType {
    Swerve,
    Differential,
}

/// What the progress messages read of a generated trajectory: the kind of its
/// samples, if any, and the samples.
#[derive(Debug, Clone)]
pub struct Trajectory<S> {
    pub sample_type: Option<DriveType>,
    pub samples: Vec<S>,
}

/// A progress message.
#[derive(Debug, Clone)]
pub enum LocalProgressUpdate<S> {
    SwerveTrajectory { update: Vec<S> },
    DifferentialTrajectory { update: Vec<S> },
    DiagnosticText { update: String },
}

/// A progress message tagged with the handle of the request it reports on.
#[derive(Debug, Clone)]
pub struct HandledLocalProgressUpdate<S> {
    pub handle: i64,
    pub update: LocalProgressUpdate<S>,
}

impl<S> LocalProgressUpdate<S> {
    /// Tags the message with the request handle `handle`.
    pub fn handled(self, handle: i64) -> (h: HandledLocalProgressUpdate<S>)
        ensures
            h == (HandledLocalProgressUpdate { handle, update: self }),
    {
        HandledLocalProgressUpdate { handle, update: self }
    }
}

/// `b` is an element-by-element clone of `a`.
pub open spec fn clones<S: Clone>(a: Seq<S>, b: Seq<S>) -> bool {
    &&& a.len() == b.len()
    &&& forall|i: int| 0 <= i < a.len() ==> cloned::<S>(a[i], b[i])
}

/// `std::sync::mpsc::Sender::send`: hands `message` to the channel. It fails
/// when the receiving half is gone, and then gives the message back. Whether
/// it fails depends on the receiver, so only that much is claimed.
#[verifier::external_body]
fn deliver<T>(tx: &Sender<T>, message: T) -> (r: Result<(), T>)
    ensures
        r matches Err(m) ==> m == message,
{
    tx.send(message).map_err(|e| e.0)
}

/// Sends `update`, tagged with `handle`, on the progress channel `sender`, if
/// there is one. A message that could not be delivered (no channel, or no
/// receiver) is given back.
pub fn send_progress<S>(
    sender: Option<&Sender<HandledLocalProgressUpdate<S>>>,
    update: LocalProgressUpdate<S>,
    handle: i64,
) -> (r: Result<(), HandledLocalProgressUpdate<S>>)
    ensures
        sender is None ==> r is Err,
        r matches Err(m) ==> m == (HandledLocalProgressUpdate { handle, update }),
{
    let message = update.handled(handle);
    match sender {
        Some(tx) => deliver(tx, message),
        None => Err(message),
    }
}

/// Sends the diagnostic text `message` for request `handle`; an undelivered
/// message is given back.
pub fn emit_diagnostic<S>(
    sender: Option<&Sender<HandledLocalProgressUpdate<S>>>,
    message: String,
    handle: i64,
) -> (r: Result<(), HandledLocalProgressUpdate<S>>)
    ensures
        sender is None ==> r is Err,
        r matches Err(m) ==> m == (HandledLocalProgressUpdate {
            handle,
            update: LocalProgressUpdate::<S>::DiagnosticText { update: message },
        }),
{
    send_progress(sender, LocalProgressUpdate::DiagnosticText { update: message }, handle)
}

/// The message that shows the samples of `trajectory`: a swerve or a
/// differential trajectory message according to the kind of its samples, and
/// none when the kind is unknown.
pub fn trajectory_update<S: Clone>(trajectory: &Trajectory<S>) -> (update: Option<
    LocalProgressUpdate<S>,
>)
    ensures
        shows_samples(trajectory, update),
{
    match trajectory.sample_type {
        Some(DriveType::Swerve) => Some(
            LocalProgressUpdate::SwerveTrajectory { update: trajectory.samples.clone() },
        ),
        Some(DriveType::Differential) => Some(
            LocalProgressUpdate::DifferentialTrajectory { update: trajectory.samples.clone() },
        ),
        None => None,
    }
}

/// `update` is the message that shows the samples of `trajectory`.
pub open spec fn shows_samples<S: Clone>(
    trajectory: &Trajectory<S>,
    update: Option<LocalProgressUpdate<S>>,
) -> bool {
    match trajectory.sample_type {
        None => update is None,
        Some(DriveType::Swerve) => update matches Some(
            LocalProgressUpdate::SwerveTrajectory { update: samples },
        ) && clones(trajectory.samples@, samples@),
        Some(DriveType::Differential) => update matches Some(
            LocalProgressUpdate::DifferentialTrajectory { update: samples },
        ) && clones(trajectory.samples@, samples@),
    }
}

/// Sends the samples of `trajectory` for request `handle`, so that the
/// frontend can show the current best trajectory. Nothing is sent (`None`)
/// when the kind of its samples is unknown; otherwise the outcome of the send
/// is returned, with an undelivered message given back.
pub fn emit_trajectory<S: Clone>(
    sender: Option<&Sender<HandledLocalProgressUpdate<S>>>,
    trajectory: &Trajectory<S>,
    handle: i64,
) -> (r: Option<Result<(), HandledLocalProgressUpdate<S>>>)
    ensures
        r is None <==> trajectory.sample_type is None,
        r matches Some(sent) ==> (sender is None ==> sent is Err),
        r matches Some(Err(m)) ==> m.handle == handle && shows_samples(trajectory, Some(m.update)),
{
    match trajectory_update(trajectory) {
        Some(update) => Some(send_progress(sender, update, handle)),
        None => None,
    }
}

} // verus!

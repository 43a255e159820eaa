//! The decisions of the discovery/refresh loop and of the per-pod stream
//! supervisors.
//!
//! One supervisor owns one pod's stream end to end. The loop outside the
//! library performs the waiting, the network calls and the writes; every
//! decision — what to do with a tracked pod, what to do with a stream event,
//! which notice to emit — is a function here, from plain values to plain
//! values.

use vstd::prelude::*;

use crate::output::{spec_applied, spec_formatted, spec_line_passes, process_line};
use crate::registry::{Pod, Pods};
use crate::error::Errors;
use crate::settings::SettingsValidated;

verus! {

/// The discovery loop's two states: waiting because nothing was found, or
/// actively supervising at least one stream.
#[derive(Debug, Clone, Copy, PartialEq, Eq, Structural)]
pub enum LoopState {
    IdleWait,
    Active,
}

/// Where the loop stands after a refresh: idle exactly while the tracked set
/// is empty. The loop has no terminal state.
pub fn next_loop_state(tracked_count: usize) -> (s: LoopState)
    ensures
        s == (if tracked_count == 0 {
            LoopState::IdleWait
        } else {
            LoopState::Active
        }),
{
    if tracked_count == 0 {
        LoopState::IdleWait
    } else {
        LoopState::Active
    }
}

/// What the loop does with one tracked pod on each pass.
#[derive(Debug, Clone, Copy, PartialEq, Eq, Structural)]
pub enum PodAction {
    /// Spawn a stream supervisor for it and mark it streaming.
    StartStream,
    /// It stopped running: remove it and release its color.
    Teardown,
    /// Leave it alone (already streaming, or nothing to do).
    Skip,
}

/// The per-pod decision: a pod that stopped running is torn down, a running
/// pod without a supervisor gets one, a streaming pod is left alone. At most
/// one supervisor ever exists per identity because only non-streaming pods
/// are started.
pub fn plan_pod_action(running: bool, already_streaming: bool) -> (a: PodAction)
    ensures
        a == (if !running {
            PodAction::Teardown
        } else if already_streaming {
            PodAction::Skip
        } else {
            PodAction::StartStream
        }),
{
    if !running {
        PodAction::Teardown
    } else if already_streaming {
        PodAction::Skip
    } else {
        PodAction::StartStream
    }
}

/// The id under which a streaming pod is listed: `namespace/name`.
pub open spec fn spec_pod_id(pod: &Pod) -> Seq<char> {
    pod.namespace@ + seq!['/'] + pod.name@
}

/// The id under which a streaming pod is listed.
pub fn pod_id(pod: &Pod) -> (r: String)
    ensures
        r@ == spec_pod_id(pod),
{
    let mut r = pod.namespace.clone();
    proof {
        reveal_strlit("/");
    }
    r.append("/");
    r.append(pod.name.as_str());
    proof {
        assert(r@ =~= spec_pod_id(pod));
    }
    r
}

/// The notice emitted when a supervisor is spawned.
pub open spec fn spec_start_notice(pod: &Pod) -> Seq<char> {
    "+++ "@ + spec_pod_id(pod) + " just started"@
}

/// The notice emitted when a stream ends without an error.
pub open spec fn spec_stop_notice(pod: &Pod) -> Seq<char> {
    "--- "@ + spec_pod_id(pod) + " gracefully stopped (maybe)"@
}

/// The notice emitted when a stream ends with an error, carrying the reason.
pub open spec fn spec_failure_notice(pod: &Pod, reason: Seq<char>) -> Seq<char> {
    "--- "@ + spec_pod_id(pod) + " failled miserably ("@ + reason + ")"@
}

/// The start-of-stream lifecycle notice.
pub fn start_notice(pod: &Pod) -> (r: String)
    ensures
        r@ == spec_start_notice(pod),
{
    let mut r = String::from_str("+++ ");
    let id = pod_id(pod);
    r.append(id.as_str());
    r.append(" just started");
    r
}

/// One event of a pod's line stream, as the transport reports it.
#[derive(Debug)]
pub enum StreamEvent {
    /// The next raw line.
    Line(String),
    /// The stream ended: the remote process finished or the connection
    /// closed.
    End,
    /// The stream failed with an unrecoverable error, described here.
    Failed(String),
}

/// What the supervisor does with one stream event.
#[derive(Debug)]
pub enum StreamDirective {
    /// Write this message on the normal channel and keep streaming.
    Print(String),
    /// Drop the line (filtered out) and keep streaming.
    Ignore,
    /// Tear the pod down and write this notice on the normal channel.
    Finish(String),
    /// Tear the pod down and write this notice on the error channel. Only
    /// this pod is affected: every other supervisor keeps running.
    Abort(String),
}

/// The supervisor's decision for one stream event: a line is filtered,
/// rewritten and formatted under the registry's current padding, or dropped;
/// the end of the stream finishes the pod with a stop notice; a stream error
/// aborts this one pod with a failure notice carrying the reason.
pub fn handle_stream_event(
    event: &StreamEvent,
    settings: &SettingsValidated,
    pods: &Pods,
    pod: &Pod,
) -> (r: StreamDirective)
    ensures
        event matches StreamEvent::Line(l) ==> (if spec_line_passes(settings, l@) {
            r matches StreamDirective::Print(m) && m@ == spec_formatted(
                pod,
                pods.padding as nat,
                pods.print_namespace,
                spec_applied(settings, l@),
            )
        } else {
            r is Ignore
        }),
        event is End ==> (r matches StreamDirective::Finish(m) && m@ == spec_stop_notice(pod)),
        event matches StreamEvent::Failed(reason) ==> (r matches StreamDirective::Abort(m) && m@
            == spec_failure_notice(pod, reason@)),
{
    match event {
        StreamEvent::Line(l) => {
            match process_line(l, settings, pods, pod) {
                Some(m) => StreamDirective::Print(m),
                None => StreamDirective::Ignore,
            }
        },
        StreamEvent::End => {
            let mut m = String::from_str("--- ");
            let id = pod_id(pod);
            m.append(id.as_str());
            m.append(" gracefully stopped (maybe)");
            StreamDirective::Finish(m)
        },
        StreamEvent::Failed(reason) => {
            let mut m = String::from_str("--- ");
            let id = pod_id(pod);
            m.append(id.as_str());
            m.append(" failled miserably (");
            m.append(reason.as_str());
            m.append(")");
            StreamDirective::Abort(m)
        },
    }
}

} // verus!

verus! {

/// The options of one log request, as the external stream collaborator takes
/// them.
#[derive(Debug, Clone)]
pub struct LogOptions {
    pub previous: bool,
    pub follow: bool,
    pub timestamps: bool,
    pub since_seconds: Option<i64>,
    pub tail_lines: Option<i64>,
}

/// The request options derived from the settings. A one-shot fetch of
/// previous lines always asks for timestamps (they key the chronological
/// sort) and does not follow; a followed stream follows forever, starts at
/// the live end, and shows timestamps only when asked to.
pub fn new_log_param(settings: &SettingsValidated, previous_line_set: bool) -> (r: LogOptions)
    ensures
        previous_line_set ==> r == (LogOptions {
            previous: settings.previous,
            follow: false,
            timestamps: true,
            since_seconds: settings.since_seconds,
            tail_lines: settings.tail_lines,
        }),
        !previous_line_set ==> r == (LogOptions {
            previous: settings.previous,
            follow: true,
            timestamps: settings.timestamps,
            since_seconds: None,
            tail_lines: Some(0),
        }),
{
    if previous_line_set {
        LogOptions {
            previous: settings.previous,
            follow: false,
            timestamps: true,
            since_seconds: settings.since_seconds,
            tail_lines: settings.tail_lines,
        }
    } else {
        LogOptions {
            previous: settings.previous,
            follow: true,
            timestamps: settings.timestamps,
            since_seconds: None,
            tail_lines: Some(0),
        }
    }
}

} // verus!

verus! {

/// The loop's reaction to one discovery listing attempt.
#[derive(Debug)]
pub enum ListingOutcome {
    /// The listed pods, to reconcile into the registry.
    Reconcile(Vec<crate::registry::PodDescriptor>),
    /// The diagnostic notice to put on the error channel; that refresh cycle
    /// is skipped and the loop retries on its next interval (fixed interval,
    /// unbounded retries, no backoff). A listing failure never aborts the
    /// engine.
    Retry(String),
}

/// Decides what the loop does with a listing attempt: reconcile what was
/// listed, or report the transport failure and retry later.
pub fn handle_listing(listing: Result<Vec<crate::registry::PodDescriptor>, Errors>) -> (o:
    ListingOutcome)
    ensures
        listing matches Ok(l) ==> (o matches ListingOutcome::Reconcile(r) && r == l),
        listing matches Err(e) ==> (o matches ListingOutcome::Retry(m) && m@ == e.spec_message()),
{
    match listing {
        Ok(l) => ListingOutcome::Reconcile(l),
        Err(e) => ListingOutcome::Retry(e.message()),
    }
}

} // verus!

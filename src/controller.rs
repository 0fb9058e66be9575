use vstd::prelude::*;

use crate::types::ParsedWebhook;
use crate::webhook::{find_in, webhook_parse, Json, Pattern};

verus! {

/// The answer to a webhook.
#[derive(Debug, Clone, PartialEq, Eq)]
pub enum WebhookReply {
    /// A pipeline for this repository and commit was started.
    Accepted(ParsedWebhook),
    /// The payload names no commit hash or no repository URL.
    BadRequest,
    /// A pipeline is already running; the webhook was dropped.
    TooManyRequests,
}

impl WebhookReply {
    /// The HTTP status that carries this reply.
    pub fn status_code(&self) -> (r: u16)
        ensures
            self is Accepted ==> r == 200,
            self is BadRequest ==> r == 400,
            self is TooManyRequests ==> r == 429,
    {
        match self {
            WebhookReply::Accepted(_) => 200,
            WebhookReply::BadRequest => 400,
            WebhookReply::TooManyRequests => 429,
        }
    }
}

/// The single-flight guard of the pipeline, and the last repository and
/// commit that a webhook named.
#[derive(Debug)]
pub struct Controller {
    pub running: bool,
    pub last_seen: Option<ParsedWebhook>,
}

/// Whether a webhook with `payload` takes the controller from `c` to `c2`
/// with the reply `r`.
pub open spec fn webhook_step(c: Controller, payload: Json, c2: Controller, r: WebhookReply) -> bool {
    let hash = find_in(payload, Pattern::CommitHash);
    let url = find_in(payload, Pattern::RepoUrl);
    if hash is None || url is None {
        r == WebhookReply::BadRequest && c2 == c
    } else if c.running {
        r == WebhookReply::TooManyRequests && c2 == c
    } else {
        r matches WebhookReply::Accepted(w) && w.hash@ == hash.unwrap() && w.repository@ == url.unwrap()
            && c2 == (Controller { running: true, last_seen: Some(w) })
    }
}

impl Controller {
    /// An idle controller that has seen no webhook yet.
    pub fn new() -> (r: Controller)
        ensures
            !r.running,
            r.last_seen is None,
    {
        Controller { running: false, last_seen: None }
    }

    /// Handles a webhook: a payload without a commit hash or a repository URL
    /// is refused, as is any webhook while a pipeline runs; otherwise the
    /// controller records what the webhook named and starts a pipeline.
    pub fn on_webhook(&mut self, payload: &Json) -> (r: WebhookReply)
        ensures
            webhook_step(*old(self), *payload, *final(self), r),
    {
        match webhook_parse(payload) {
            Err(_) => WebhookReply::BadRequest,
            Ok(w) => {
                if self.running {
                    WebhookReply::TooManyRequests
                } else {
                    self.running = true;
                    self.last_seen = Some(w.duplicate());
                    WebhookReply::Accepted(w)
                }
            },
        }
    }

    /// Records that the running pipeline has returned, successfully or not.
    pub fn on_pipeline_end(&mut self)
        ensures
            !final(self).running,
            final(self).last_seen == old(self).last_seen,
            end_step(*old(self), *final(self)),
    {
        self.running = false;
    }

    /// The repository and commit that the health loop checks against, if a
    /// webhook has ever been accepted.
    pub fn health_target(&self) -> (r: Option<ParsedWebhook>)
        ensures
            r == self.last_seen,
    {
        match &self.last_seen {
            Some(w) => Some(w.duplicate()),
            None => None,
        }
    }
}

/// Single flight: a webhook that arrives while a pipeline runs starts
/// nothing and changes nothing, and is answered 429 when its payload is
/// well formed; a webhook starts a pipeline only when none runs, and then
/// exactly one runs.
pub proof fn single_flight(c: Controller, payload: Json, c2: Controller, r: WebhookReply)
    requires
        webhook_step(c, payload, c2, r),
    ensures
        c.running ==> c2 == c && !(r is Accepted),
        c.running && find_in(payload, Pattern::CommitHash) is Some && find_in(payload, Pattern::RepoUrl) is Some
            ==> r == WebhookReply::TooManyRequests,
        r is Accepted ==> !c.running && c2.running,
        !(r is Accepted) ==> c2 == c,
{
}


/// What happens to the controller: a webhook arrives, or the running
/// pipeline returns.
pub enum ControllerEvent {
    Webhook(Json),
    PipelineEnd,
}

/// Whether the pipeline's return takes the controller from `c` to `c2`.
pub open spec fn end_step(c: Controller, c2: Controller) -> bool {
    c2 == (Controller { running: false, last_seen: c.last_seen })
}

/// `cs` are the states that the controller passes through on the events
/// `evs`, and `rs` the replies to the webhooks among them.
pub open spec fn is_run(cs: Seq<Controller>, evs: Seq<ControllerEvent>, rs: Seq<WebhookReply>) -> bool {
    &&& cs.len() == evs.len() + 1
    &&& rs.len() == evs.len()
    &&& forall|i: int|
        0 <= i < evs.len() ==> match #[trigger] evs[i] {
            ControllerEvent::Webhook(p) => webhook_step(cs[i], p, cs[i + 1], rs[i]),
            ControllerEvent::PipelineEnd => end_step(cs[i], cs[i + 1]),
        }
}

/// The number of pipelines started by the first `n` events.
pub open spec fn started(rs: Seq<WebhookReply>, evs: Seq<ControllerEvent>, n: int) -> int
    decreases n,
{
    if n <= 0 {
        0
    } else {
        started(rs, evs, n - 1) + if evs[n - 1] is Webhook && rs[n - 1] is Accepted { 1int } else { 0int }
    }
}

/// The number of running pipelines that returned among the first `n` events.
pub open spec fn finished(cs: Seq<Controller>, evs: Seq<ControllerEvent>, n: int) -> int
    decreases n,
{
    if n <= 0 {
        0
    } else {
        finished(cs, evs, n - 1) + if evs[n - 1] is PipelineEnd && cs[n - 1].running { 1int } else { 0int }
    }
}

/// Over any run that starts idle, after every event the pipelines started
/// minus those finished is one while a pipeline runs and zero otherwise:
/// never more than one pipeline is in flight.
pub proof fn at_most_one_pipeline(cs: Seq<Controller>, evs: Seq<ControllerEvent>, rs: Seq<WebhookReply>)
    requires
        is_run(cs, evs, rs),
        !cs[0].running,
    ensures
        forall|k: int|
            0 <= k <= evs.len() ==> started(rs, evs, k) - finished(cs, evs, k) == if (#[trigger] cs[k]).running {
                1int
            } else {
                0int
            },
{
    assert forall|k: int| 0 <= k <= evs.len() implies started(rs, evs, k) - finished(cs, evs, k) == if (
    #[trigger] cs[k]).running {
        1int
    } else {
        0int
    } by {
        lemma_in_flight(cs, evs, rs, k);
    }
}

proof fn lemma_in_flight(cs: Seq<Controller>, evs: Seq<ControllerEvent>, rs: Seq<WebhookReply>, k: int)
    requires
        is_run(cs, evs, rs),
        !cs[0].running,
        0 <= k <= evs.len(),
    ensures
        started(rs, evs, k) - finished(cs, evs, k) == if cs[k].running {
            1int
        } else {
            0int
        },
    decreases k,
{
    if k > 0 {
        lemma_in_flight(cs, evs, rs, k - 1);
        let i = k - 1;
        match evs[i] {
            ControllerEvent::Webhook(p) => {
                assert(webhook_step(cs[i], p, cs[i + 1], rs[i]));
                single_flight(cs[i], p, cs[i + 1], rs[i]);
            },
            ControllerEvent::PipelineEnd => {
                assert(end_step(cs[i], cs[i + 1]));
            },
        }
    }
}

} // verus!

use vstd::prelude::*;

verus! {

/// How long the client waits before asking again about a payment that is
/// still pending.
pub const POLL_TIMEOUT_MS: u32 = 1000;

/// The status of a card payment as reported by the payment service.
#[derive(Clone, Debug, PartialEq, Eq)]
pub enum IZettlePayment {
    Pending,
    Paid { transaction_id: i32 },
    Cancelled,
    NoTransaction,
    Failed { reason: String },
}

/// Why a payment did not go through.
#[derive(Clone, Debug, PartialEq, Eq)]
pub enum IZettlePayErr {
    /// No transaction existed with the given ID
    NoTransaction { reference: i32 },
    /// The payment failed for some reason
    PaymentFailed { reference: i32, reason: String },
    /// A network request has failed
    NetworkError { reason: String },
}

/// The events that drive the payment component.
#[derive(Clone, Debug, PartialEq, Eq)]
pub enum IZettlePayMsg {
    /// Poll for payment completion
    PollPendingPayment(i32),
    /// There was an error processing the payment
    Error(IZettlePayErr),
    /// The payment was completed and the transaction committed
    PaymentCompleted { transaction_id: i32 },
    /// The payment was intentionally cancelled
    PaymentCancelled,
}

/// Outside work that the component asks its host to perform.
#[derive(Clone, Debug, PartialEq, Eq)]
pub enum IZettlePayCmd<T> {
    /// Post `transaction` to the payment service; its reply goes to `post_reply`.
    PostTransaction { transaction: T },
    /// Ask the payment service about `reference`; its reply goes to `poll_reply`.
    PollPayment { reference: i32 },
}

/// What to do with the answer to a poll: wait `delay_ms` milliseconds (if
/// any), then deliver `msg` to the component.
#[derive(Clone, Debug, PartialEq, Eq)]
pub struct PollReply {
    pub delay_ms: Option<u32>,
    pub msg: IZettlePayMsg,
}

/// Helper component for handling iZettle payments.
///
/// Its state is the reference of the payment it is currently waiting for.
#[derive(Clone, Debug)]
pub struct IZettlePay {
    pending: Option<i32>,
}

impl View for IZettlePay {
    type V = Option<i32>;

    closed spec fn view(&self) -> Option<i32> {
        self.pending
    }
}

/// The command that `pay` issues in state `pending` for `transaction`.
pub open spec fn spec_pay<T>(pending: Option<i32>, transaction: T) -> Option<IZettlePayCmd<T>> {
    if pending is None {
        Some(IZettlePayCmd::PostTransaction { transaction })
    } else {
        None
    }
}

/// The state and command that `update` produces from state `pending` on `msg`.
pub open spec fn spec_update<T>(pending: Option<i32>, msg: IZettlePayMsg) -> (Option<i32>, Option<IZettlePayCmd<T>>) {
    match msg {
        IZettlePayMsg::PollPendingPayment(reference) => (
            Some(reference),
            Some(IZettlePayCmd::PollPayment { reference }),
        ),
        _ => (None, None),
    }
}

/// The message produced by the reply to posting a transaction: `Some(reference)`
/// when the service accepted it, `None` when the request failed.
pub open spec fn spec_post_reply(reply: Option<i32>, failure_reason: String) -> IZettlePayMsg {
    match reply {
        Some(reference) => IZettlePayMsg::PollPendingPayment(reference),
        None => IZettlePayMsg::Error(IZettlePayErr::NetworkError { reason: failure_reason }),
    }
}

/// What the answer to polling `reference` leads to; `None` stands for a
/// failed request.
pub open spec fn spec_poll_reply(
    reference: i32,
    reply: Option<IZettlePayment>,
    failure_reason: String,
) -> PollReply {
    match reply {
        Some(IZettlePayment::Pending) => PollReply {
            delay_ms: Some(POLL_TIMEOUT_MS),
            msg: IZettlePayMsg::PollPendingPayment(reference),
        },
        Some(IZettlePayment::Paid { transaction_id }) => PollReply {
            delay_ms: None,
            msg: IZettlePayMsg::PaymentCompleted { transaction_id },
        },
        Some(IZettlePayment::Cancelled) => PollReply {
            delay_ms: None,
            msg: IZettlePayMsg::PaymentCancelled,
        },
        Some(IZettlePayment::NoTransaction) => PollReply {
            delay_ms: None,
            msg: IZettlePayMsg::Error(IZettlePayErr::NoTransaction { reference }),
        },
        Some(IZettlePayment::Failed { reason }) => PollReply {
            delay_ms: None,
            msg: IZettlePayMsg::Error(IZettlePayErr::PaymentFailed { reference, reason }),
        },
        None => PollReply {
            delay_ms: None,
            msg: IZettlePayMsg::Error(IZettlePayErr::NetworkError { reason: failure_reason }),
        },
    }
}

impl IZettlePay {
    pub fn new() -> (res: Self)
        ensures
            res@ is None,
    {
        IZettlePay { pending: None }
    }

    /// Starts paying `transaction` unless a payment is already pending. The state itself only
    /// changes once the service has answered (see `post_reply`).
    pub fn pay<T>(&mut self, transaction: T) -> (cmd: Option<IZettlePayCmd<T>>)
        ensures
            final(self)@ == old(self)@,
            cmd == spec_pay(old(self)@, transaction),
    {
        if self.pending.is_some() {
            return None;
        }
        Some(IZettlePayCmd::PostTransaction { transaction })
    }

    /// The reference of the payment that is being waited for, if any.
    pub fn pending(&self) -> (res: Option<i32>)
        ensures
            res == self@,
    {
        self.pending
    }

    /// Applies `msg` to the component and returns the outside work it asks for.
    pub fn update<T>(&mut self, msg: IZettlePayMsg) -> (cmd: Option<IZettlePayCmd<T>>)
        ensures
            (final(self)@, cmd) == spec_update::<T>(old(self)@, msg),
    {
        match msg {
            IZettlePayMsg::PaymentCancelled | IZettlePayMsg::PaymentCompleted { .. } => {
                self.pending = None;
                None
            },
            IZettlePayMsg::Error(_) => {
                self.pending = None;
                None
            },
            IZettlePayMsg::PollPendingPayment(reference) => {
                self.pending = Some(reference);
                Some(IZettlePayCmd::PollPayment { reference })
            },
        }
    }
}

/// Turns the reply to `PostTransaction` into the next message.
pub fn post_reply(reply: Option<i32>, failure_reason: String) -> (msg: IZettlePayMsg)
    ensures
        msg == spec_post_reply(reply, failure_reason),
{
    match reply {
        Some(reference) => IZettlePayMsg::PollPendingPayment(reference),
        None => IZettlePayMsg::Error(IZettlePayErr::NetworkError { reason: failure_reason }),
    }
}

/// Turns the reply to `PollPayment { reference }` into the next message.
pub fn poll_reply(reference: i32, reply: Option<IZettlePayment>, failure_reason: String) -> (res:
    PollReply)
    ensures
        res == spec_poll_reply(reference, reply, failure_reason),
{
    match reply {
        Some(IZettlePayment::Pending) => PollReply {
            delay_ms: Some(POLL_TIMEOUT_MS),
            msg: IZettlePayMsg::PollPendingPayment(reference),
        },
        Some(IZettlePayment::Paid { transaction_id }) => PollReply {
            delay_ms: None,
            msg: IZettlePayMsg::PaymentCompleted { transaction_id },
        },
        Some(IZettlePayment::Cancelled) => PollReply {
            delay_ms: None,
            msg: IZettlePayMsg::PaymentCancelled,
        },
        Some(IZettlePayment::NoTransaction) => PollReply {
            delay_ms: None,
            msg: IZettlePayMsg::Error(IZettlePayErr::NoTransaction { reference }),
        },
        Some(IZettlePayment::Failed { reason }) => PollReply {
            delay_ms: None,
            msg: IZettlePayMsg::Error(IZettlePayErr::PaymentFailed { reference, reason }),
        },
        None => PollReply {
            delay_ms: None,
            msg: IZettlePayMsg::Error(IZettlePayErr::NetworkError { reason: failure_reason }),
        },
    }
}

/// Once the service has accepted a payment, no second payment can be started
/// until that one has been settled.
pub proof fn lemma_no_second_payment_while_pending<T>(
    pending: Option<i32>,
    reference: i32,
    reason: String,
    transaction: T,
)
    ensures
        spec_pay(spec_update::<T>(pending, spec_post_reply(Some(reference), reason)).0, transaction) is None,
        spec_update::<T>(pending, spec_post_reply(Some(reference), reason)).0 == Some(reference),
{
}

/// A payment that is still pending is polled again, after the poll timeout,
/// under the same reference.
pub proof fn lemma_pending_payment_is_polled_again<T>(pending: Option<i32>, reference: i32, reason: String)
    ensures
        ({
            let reply = spec_poll_reply(reference, Some(IZettlePayment::Pending), reason);
            &&& reply.delay_ms == Some(POLL_TIMEOUT_MS)
            &&& spec_update::<T>(pending, reply.msg) == (
                Some(reference),
                Some(IZettlePayCmd::<T>::PollPayment { reference }),
            )
        }),
{
}

/// Every answer to a poll other than "pending" settles the payment: the
/// component is idle again, asks for nothing, and a new payment may start.
pub proof fn lemma_settled_payment_clears_pending<T>(
    pending: Option<i32>,
    reference: i32,
    reply: Option<IZettlePayment>,
    reason: String,
    transaction: T,
)
    requires
        reply != Some(IZettlePayment::Pending),
    ensures
        spec_update::<T>(pending, spec_poll_reply(reference, reply, reason).msg) == (None::<i32>, None::<IZettlePayCmd<T>>),
        spec_pay(spec_update::<T>(pending, spec_poll_reply(reference, reply, reason).msg).0, transaction)
            == Some(IZettlePayCmd::PostTransaction { transaction }),
{
}

/// A failed post leaves the component idle, so the payment can be retried.
pub proof fn lemma_failed_post_allows_retry<T>(pending: Option<i32>, reason: String, transaction: T)
    ensures
        spec_update::<T>(pending, spec_post_reply(None, reason)).0 is None,
        spec_pay(spec_update::<T>(pending, spec_post_reply(None, reason)).0, transaction)
            == Some(IZettlePayCmd::PostTransaction { transaction }),
{
}

/// Each answer of the payment service is passed on with its details: a paid
/// payment completes with the service's transaction id, a failed payment
/// reports the polled reference and the service's reason, a missing
/// transaction reports the polled reference, a failed request reports the
/// given reason, and only a pending payment waits before the next message.
pub proof fn lemma_replies_keep_details(reference: i32, reply: Option<IZettlePayment>, reason: String)
    ensures
        ({
            let r = spec_poll_reply(reference, reply, reason);
            &&& r.delay_ms is Some <==> reply == Some(IZettlePayment::Pending)
            &&& match reply {
                Some(IZettlePayment::Pending) => r.msg == IZettlePayMsg::PollPendingPayment(reference),
                Some(IZettlePayment::Paid { transaction_id }) => r.msg == IZettlePayMsg::PaymentCompleted { transaction_id },
                Some(IZettlePayment::Cancelled) => r.msg == IZettlePayMsg::PaymentCancelled,
                Some(IZettlePayment::NoTransaction) => r.msg == IZettlePayMsg::Error(
                    IZettlePayErr::NoTransaction { reference },
                ),
                Some(IZettlePayment::Failed { reason: why }) => r.msg == IZettlePayMsg::Error(
                    IZettlePayErr::PaymentFailed { reference, reason: why },
                ),
                None => r.msg == IZettlePayMsg::Error(IZettlePayErr::NetworkError { reason }),
            }
        }),
        forall|r: i32| spec_post_reply(Some(r), reason) == IZettlePayMsg::PollPendingPayment(r),
        spec_post_reply(None, reason) == IZettlePayMsg::Error(IZettlePayErr::NetworkError { reason }),
{
}

/// An idle component posts exactly the transaction it is asked to pay, and
/// polling a reference asks the service about that same reference.
pub proof fn lemma_commands_carry_their_subject<T>(transaction: T, pending: Option<i32>, reference: i32)
    ensures
        spec_pay(None, transaction) == Some(IZettlePayCmd::PostTransaction { transaction }),
        pending is Some ==> spec_pay(pending, transaction) is None,
        spec_update::<T>(pending, IZettlePayMsg::PollPendingPayment(reference)).1 == Some(
            IZettlePayCmd::<T>::PollPayment { reference },
        ),
        spec_update::<T>(pending, IZettlePayMsg::PollPendingPayment(reference)).0 == Some(reference),
{
}

} // verus!

use strecklistan::izettle::{
    poll_reply, post_reply, IZettlePay, IZettlePayCmd, IZettlePayErr, IZettlePayMsg, IZettlePayment,
    PollReply, POLL_TIMEOUT_MS,
};

#[test]
fn new_component_is_idle() {
    let pay = IZettlePay::new();
    assert_eq!(pay.pending(), None);
}

#[test]
fn pay_posts_only_when_idle() {
    let mut pay = IZettlePay::new();
    assert_eq!(pay.pay("order-1"), Some(IZettlePayCmd::PostTransaction { transaction: "order-1" }));
    assert_eq!(pay.pending(), None);
    assert_eq!(pay.update::<&str>(IZettlePayMsg::PollPendingPayment(7)), Some(IZettlePayCmd::<&str>::PollPayment { reference: 7 }));
    assert_eq!(pay.pending(), Some(7));
    assert_eq!(pay.pay("order-1"), None);
    assert_eq!(pay.pending(), Some(7));
}

#[test]
fn settling_messages_clear_pending() {
    let settling = vec![
        IZettlePayMsg::PaymentCompleted { transaction_id: 3 },
        IZettlePayMsg::PaymentCancelled,
        IZettlePayMsg::Error(IZettlePayErr::NoTransaction { reference: 4 }),
        IZettlePayMsg::Error(IZettlePayErr::PaymentFailed { reference: 4, reason: "declined".to_string() }),
        IZettlePayMsg::Error(IZettlePayErr::NetworkError { reason: "offline".to_string() }),
    ];
    for msg in settling {
        let mut pay = IZettlePay::new();
        pay.update::<&str>(IZettlePayMsg::PollPendingPayment(4));
        assert_eq!(pay.update::<&str>(msg), None);
        assert_eq!(pay.pending(), None);
        assert_eq!(pay.pay("order-1"), Some(IZettlePayCmd::PostTransaction { transaction: "order-1" }));
    }
}

#[test]
fn post_reply_starts_polling_or_reports_network_error() {
    assert_eq!(post_reply(Some(12), "x".to_string()), IZettlePayMsg::PollPendingPayment(12));
    assert_eq!(
        post_reply(None, "posting failed".to_string()),
        IZettlePayMsg::Error(IZettlePayErr::NetworkError { reason: "posting failed".to_string() })
    );
}

#[test]
fn pending_poll_waits_and_polls_same_reference() {
    let reply = poll_reply(5, Some(IZettlePayment::Pending), "x".to_string());
    assert_eq!(reply, PollReply { delay_ms: Some(1000), msg: IZettlePayMsg::PollPendingPayment(5) });
    assert_eq!(POLL_TIMEOUT_MS, 1000);
    let mut pay = IZettlePay::new();
    assert_eq!(pay.update::<&str>(reply.msg), Some(IZettlePayCmd::<&str>::PollPayment { reference: 5 }));
    assert_eq!(pay.pending(), Some(5));
}

#[test]
fn poll_outcomes_map_to_messages() {
    assert_eq!(
        poll_reply(5, Some(IZettlePayment::Paid { transaction_id: 99 }), "x".to_string()),
        PollReply { delay_ms: None, msg: IZettlePayMsg::PaymentCompleted { transaction_id: 99 } }
    );
    assert_eq!(
        poll_reply(5, Some(IZettlePayment::Cancelled), "x".to_string()),
        PollReply { delay_ms: None, msg: IZettlePayMsg::PaymentCancelled }
    );
    assert_eq!(
        poll_reply(5, Some(IZettlePayment::NoTransaction), "x".to_string()),
        PollReply { delay_ms: None, msg: IZettlePayMsg::Error(IZettlePayErr::NoTransaction { reference: 5 }) }
    );
    assert_eq!(
        poll_reply(5, Some(IZettlePayment::Failed { reason: "card declined".to_string() }), "x".to_string()),
        PollReply {
            delay_ms: None,
            msg: IZettlePayMsg::Error(IZettlePayErr::PaymentFailed { reference: 5, reason: "card declined".to_string() }),
        }
    );
    assert_eq!(
        poll_reply(5, None, "polling failed".to_string()),
        PollReply {
            delay_ms: None,
            msg: IZettlePayMsg::Error(IZettlePayErr::NetworkError { reason: "polling failed".to_string() }),
        }
    );
}

#[test]
fn failed_post_leaves_component_ready_to_retry() {
    let mut pay = IZettlePay::new();
    assert_eq!(pay.pay("order-1"), Some(IZettlePayCmd::PostTransaction { transaction: "order-1" }));
    let msg = post_reply(None, "posting failed".to_string());
    assert_eq!(pay.update::<&str>(msg), None);
    assert_eq!(pay.pending(), None);
    assert_eq!(pay.pay("order-1"), Some(IZettlePayCmd::PostTransaction { transaction: "order-1" }));
}

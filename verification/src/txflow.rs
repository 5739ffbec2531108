use vstd::prelude::*;
use crate::errors::ClientError;
use crate::gas::{buffered_gas_spec, clamp_u64, decide_gas_spec, GasBuffer, GasPlan, GasSpecs};

verus! {

/// Where a single transaction stands.  The lifecycle runs
/// `Estimating`/`Confirming` (as the gas policy demands), then
/// `Submitting`, then `Pending` until a receipt classifies the call.
#[derive(Debug, Clone, Copy, PartialEq, Eq)]
pub enum TxState {
    Estimating { buffer: Option<GasBuffer>, confirm: bool },
    Confirming { buffered: u64 },
    Submitting { gas: Option<u64> },
    Pending,
    Confirmed,
    Aborted,
    Failed,
    Unknown,
    NetworkFailed,
}

/// What the outside world reports back to the lifecycle.
#[derive(Debug, Clone, Copy, PartialEq, Eq)]
pub enum TxEvent {
    EstimateOk(u64),
    ConfirmAnswer(bool),
    Submitted,
    ReceiptPending,
    /// The receipt's status field: success, failure, or absent.
    ReceiptStatus(Option<u8>),
    NetworkError,
}

/// Why a lifecycle ended without a confirmed transaction.
#[derive(Debug, Clone, Copy, PartialEq, Eq, Structural)]
pub enum TxFailure {
    DeclinedByUser,
    EstimationFailed,
    SubmitFailed,
    ReceiptFailed,
    Reverted,
    StatusUnknown,
}

/// What the caller must do next.
#[derive(Debug, Clone, Copy, PartialEq, Eq)]
pub enum TxAction {
    /// Simulate the call to estimate gas.
    Estimate,
    /// Show the estimate and its buffered value and ask for an
    /// explicit affirmative answer.
    Prompt { estimate: u64, buffered: u64 },
    /// Sign and send, with this gas field.
    Submit { gas: Option<u64> },
    /// Ask for the transaction receipt once more.
    Poll,
    /// The call is confirmed on-chain.
    Succeed,
    /// The call is over without confirmation.
    Fail(TxFailure),
    /// The event does not belong to this state; stand still.
    Hold,
}

impl TxFailure {
    /// The error a failed lifecycle reports.
    pub fn to_error(self) -> (e: ClientError)
        ensures
            self is DeclinedByUser ==> e == ClientError::UserAbort,
            self is Reverted ==> e == ClientError::ChainReverted,
            self is StatusUnknown ==> e == ClientError::ChainStatusUnknown,
            (self is EstimationFailed || self is SubmitFailed || self is ReceiptFailed)
                ==> e.kind_spec() == crate::errors::ErrorKind::Network,
    {
        match self {
            TxFailure::DeclinedByUser => ClientError::UserAbort,
            TxFailure::EstimationFailed => ClientError::Network(
                String::from_str("gas estimation failed"),
            ),
            TxFailure::SubmitFailed => ClientError::Network(
                String::from_str("transaction submission failed"),
            ),
            TxFailure::ReceiptFailed => ClientError::Network(
                String::from_str("error getting transaction receipt"),
            ),
            TxFailure::Reverted => ClientError::ChainReverted,
            TxFailure::StatusUnknown => ClientError::ChainStatusUnknown,
        }
    }
}

/// The first state and action of a lifecycle, decided by the gas
/// policy alone: an explicit limit or waived estimation submits at
/// once; anything else estimates first.
pub open spec fn start_tx_spec(specs: GasSpecs, auto_confirm: bool) -> (TxState, TxAction) {
    match decide_gas_spec(specs, auto_confirm) {
        GasPlan::Fixed(l) => (
            TxState::Submitting { gas: Option::Some(l) },
            TxAction::Submit { gas: Option::Some(l) },
        ),
        GasPlan::Deferred => (
            TxState::Submitting { gas: Option::None },
            TxAction::Submit { gas: Option::None },
        ),
        GasPlan::Estimate { buffer, confirm } => (
            TxState::Estimating { buffer, confirm },
            TxAction::Estimate,
        ),
    }
}

pub fn start_tx(specs: &GasSpecs, auto_confirm: bool) -> (r: (TxState, TxAction))
    ensures
        r == start_tx_spec(*specs, auto_confirm),
{
    match specs.gas_limit {
        Option::Some(l) => (
            TxState::Submitting { gas: Option::Some(l) },
            TxAction::Submit { gas: Option::Some(l) },
        ),
        Option::None => {
            if specs.gas_buffer.is_none() && auto_confirm {
                (TxState::Submitting { gas: Option::None }, TxAction::Submit { gas: Option::None })
            } else {
                (
                    TxState::Estimating { buffer: specs.gas_buffer, confirm: !auto_confirm },
                    TxAction::Estimate,
                )
            }
        },
    }
}

/// The estimate scaled by the optional buffer, truncated, saturating.
pub open spec fn scaled_estimate(est: u64, buffer: Option<GasBuffer>) -> int {
    match buffer {
        Option::Some(b) => clamp_u64(buffered_gas_spec(est, b.milli)),
        Option::None => est as int,
    }
}

/// One lifecycle step.  A receipt with success status confirms; a
/// failure status reverts; a receipt without an interpretable status
/// ends as unknown; a missing receipt is polled again, unboundedly.
/// Terminal states absorb every further event and only restate their
/// outcome.
pub open spec fn tx_step_spec(s: TxState, e: TxEvent) -> (TxState, TxAction) {
    match s {
        TxState::Estimating { buffer, confirm } => match e {
            TxEvent::EstimateOk(est) => {
                let buffered = scaled_estimate(est, buffer) as u64;
                if confirm {
                    (
                        TxState::Confirming { buffered },
                        TxAction::Prompt { estimate: est, buffered },
                    )
                } else {
                    (
                        TxState::Submitting { gas: Option::Some(buffered) },
                        TxAction::Submit { gas: Option::Some(buffered) },
                    )
                }
            },
            TxEvent::NetworkError => (
                TxState::NetworkFailed,
                TxAction::Fail(TxFailure::EstimationFailed),
            ),
            _ => (s, TxAction::Hold),
        },
        TxState::Confirming { buffered } => match e {
            TxEvent::ConfirmAnswer(true) => (
                TxState::Submitting { gas: Option::Some(buffered) },
                TxAction::Submit { gas: Option::Some(buffered) },
            ),
            TxEvent::ConfirmAnswer(false) => (
                TxState::Aborted,
                TxAction::Fail(TxFailure::DeclinedByUser),
            ),
            _ => (s, TxAction::Hold),
        },
        TxState::Submitting { gas } => match e {
            TxEvent::Submitted => (TxState::Pending, TxAction::Poll),
            TxEvent::NetworkError => (TxState::NetworkFailed, TxAction::Fail(
                TxFailure::SubmitFailed,
            )),
            _ => (s, TxAction::Hold),
        },
        TxState::Pending => match e {
            TxEvent::ReceiptPending => (TxState::Pending, TxAction::Poll),
            TxEvent::ReceiptStatus(st) => match st {
                Option::Some(code) => if code == 1 {
                    (TxState::Confirmed, TxAction::Succeed)
                } else {
                    (TxState::Failed, TxAction::Fail(TxFailure::Reverted))
                },
                Option::None => (TxState::Unknown, TxAction::Fail(TxFailure::StatusUnknown)),
            },
            TxEvent::NetworkError => (TxState::NetworkFailed, TxAction::Fail(
                TxFailure::ReceiptFailed,
            )),
            _ => (s, TxAction::Hold),
        },
        TxState::Confirmed => (s, TxAction::Succeed),
        TxState::Aborted => (s, TxAction::Fail(TxFailure::DeclinedByUser)),
        TxState::Failed => (s, TxAction::Fail(TxFailure::Reverted)),
        TxState::Unknown => (s, TxAction::Fail(TxFailure::StatusUnknown)),
        TxState::NetworkFailed => (s, TxAction::Fail(TxFailure::ReceiptFailed)),
    }
}

pub fn tx_step(s: &TxState, e: &TxEvent) -> (r: (TxState, TxAction))
    ensures
        r == tx_step_spec(*s, *e),
{
    match *s {
        TxState::Estimating { buffer, confirm } => match *e {
            TxEvent::EstimateOk(est) => {
                let buffered = crate::gas::apply_buffer(est, &buffer);
                if confirm {
                    (
                        TxState::Confirming { buffered },
                        TxAction::Prompt { estimate: est, buffered },
                    )
                } else {
                    (
                        TxState::Submitting { gas: Option::Some(buffered) },
                        TxAction::Submit { gas: Option::Some(buffered) },
                    )
                }
            },
            TxEvent::NetworkError => (
                TxState::NetworkFailed,
                TxAction::Fail(TxFailure::EstimationFailed),
            ),
            _ => (*s, TxAction::Hold),
        },
        TxState::Confirming { buffered } => match *e {
            TxEvent::ConfirmAnswer(true) => (
                TxState::Submitting { gas: Option::Some(buffered) },
                TxAction::Submit { gas: Option::Some(buffered) },
            ),
            TxEvent::ConfirmAnswer(false) => (
                TxState::Aborted,
                TxAction::Fail(TxFailure::DeclinedByUser),
            ),
            _ => (*s, TxAction::Hold),
        },
        TxState::Submitting { gas: _ } => match *e {
            TxEvent::Submitted => (TxState::Pending, TxAction::Poll),
            TxEvent::NetworkError => (TxState::NetworkFailed, TxAction::Fail(
                TxFailure::SubmitFailed,
            )),
            _ => (*s, TxAction::Hold),
        },
        TxState::Pending => match *e {
            TxEvent::ReceiptPending => (TxState::Pending, TxAction::Poll),
            TxEvent::ReceiptStatus(st) => match st {
                Option::Some(code) => if code == 1 {
                    (TxState::Confirmed, TxAction::Succeed)
                } else {
                    (TxState::Failed, TxAction::Fail(TxFailure::Reverted))
                },
                Option::None => (TxState::Unknown, TxAction::Fail(TxFailure::StatusUnknown)),
            },
            TxEvent::NetworkError => (TxState::NetworkFailed, TxAction::Fail(
                TxFailure::ReceiptFailed,
            )),
            _ => (*s, TxAction::Hold),
        },
        TxState::Confirmed => (*s, TxAction::Succeed),
        TxState::Aborted => (*s, TxAction::Fail(TxFailure::DeclinedByUser)),
        TxState::Failed => (*s, TxAction::Fail(TxFailure::Reverted)),
        TxState::Unknown => (*s, TxAction::Fail(TxFailure::StatusUnknown)),
        TxState::NetworkFailed => (*s, TxAction::Fail(TxFailure::ReceiptFailed)),
    }
}

/// A lifecycle state the flow never leaves.
pub open spec fn is_terminal(s: TxState) -> bool {
    match s {
        TxState::Confirmed => true,
        TxState::Aborted => true,
        TxState::Failed => true,
        TxState::Unknown => true,
        TxState::NetworkFailed => true,
        _ => false,
    }
}

/// Whether some step along the event trace asks for a submission.
pub open spec fn trace_submits(s: TxState, events: Seq<TxEvent>) -> bool
    decreases events.len(),
{
    if events.len() == 0 {
        false
    } else {
        let step = tx_step_spec(s, events[0]);
        (step.1 matches TxAction::Submit { .. }) || trace_submits(step.0, events.drop_first())
    }
}

/// From a terminal state no event trace ever asks for a submission.
pub proof fn lemma_terminal_never_submits(s: TxState, events: Seq<TxEvent>)
    requires
        is_terminal(s),
    ensures
        !trace_submits(s, events),
    decreases events.len(),
{
    if events.len() > 0 {
        let step = tx_step_spec(s, events[0]);
        assert(step.0 == s);
        lemma_terminal_never_submits(s, events.drop_first());
    }
}

/// The gas policy's guarantee: after a declined confirmation no
/// transaction is ever submitted, whatever events follow.
pub proof fn lemma_declined_never_submits(buffered: u64, events: Seq<TxEvent>)
    ensures
        ({
            let step = tx_step_spec(
                TxState::Confirming { buffered },
                TxEvent::ConfirmAnswer(false),
            );
            &&& !(step.1 matches TxAction::Submit { .. })
            &&& !trace_submits(step.0, events)
        }),
{
    let step = tx_step_spec(TxState::Confirming { buffered }, TxEvent::ConfirmAnswer(false));
    assert(step.0 == TxState::Aborted);
    lemma_terminal_never_submits(step.0, events);
}

} // verus!

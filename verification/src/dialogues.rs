//! The data a dialogue step exchanges with its surroundings: side-effect
//! requests, message identifiers, and the errors a dispatch cycle can surface.

use vstd::prelude::*;

verus! {

/// Opaque handle the messaging adapter returns once a message is delivered.
/// It is only ever passed back to the adapter (for deletion or reference),
/// never fabricated by this crate.
pub type MessageId = u64;

/// One inbound user action. The dispatcher passes it through unexamined;
/// only a controller's own handling logic reads it.
pub type DialInteraction = String;

/// Structured description of the interactive choices attached to an
/// outgoing message.
pub struct Selector {
    pub options: Vec<String>,
}

impl View for Selector {
    type V = Seq<Seq<char>>;

    open spec fn view(&self) -> Seq<Seq<char>> {
        self.options@.map_values(|s: String| s@)
    }
}

/// One side-effect request emitted by a controller's handling step.
/// Order within a request and across a request list is significant and is
/// preserved end to end.
pub enum CtxResult {
    /// Send each message individually, in list order.
    Messages(Vec<String>),
    /// Send one message carrying interactive choices.
    Buttons(String, Selector),
    /// Delete exactly these previously delivered messages.
    RemoveMessages(Vec<MessageId>),
}

/// Mathematical view of a [`CtxResult`].
pub enum CtxResultView {
    Messages(Seq<Seq<char>>),
    Buttons(Seq<char>, Seq<Seq<char>>),
    RemoveMessages(Seq<MessageId>),
}

impl View for CtxResult {
    type V = CtxResultView;

    open spec fn view(&self) -> CtxResultView {
        match self {
            CtxResult::Messages(messages) => CtxResultView::Messages(
                messages@.map_values(|s: String| s@),
            ),
            CtxResult::Buttons(message, selector) => CtxResultView::Buttons(message@, selector@),
            CtxResult::RemoveMessages(ids) => CtxResultView::RemoveMessages(ids@),
        }
    }
}

/// The views of a request list, order kept.
pub open spec fn views_of(results: Seq<CtxResult>) -> Seq<CtxResultView> {
    results.map_values(|c: CtxResult| c@)
}

/// Fresh-controller creation failed.
#[derive(Debug)]
pub struct ConstructionError {
    pub message: String,
}

/// A controller's handling step rejected the interaction or failed internally.
#[derive(Debug)]
pub struct HandlingError {
    pub message: String,
}

/// A transport-level send or delete failed.
#[derive(Debug)]
pub struct AdapterError {
    pub message: String,
}

/// Any error a dispatch cycle can surface; every error propagates unmodified
/// to the caller of the dispatch operation.
#[derive(Debug)]
pub enum DispatchError {
    Construction(ConstructionError),
    Handling(HandlingError),
    Adapter(AdapterError),
}

pub type AnyResult<T> = Result<T, DispatchError>;

pub type HandlerResult = AnyResult<()>;

} // verus!

//! The two capabilities the dispatcher consumes — the controller store and the
//! messaging adapter — and the dialogue controller's own operations. Each
//! capability carries a ghost log of the operations performed on it, so the
//! dispatcher's contract can pin down exactly which calls a cycle makes and in
//! which order.

use vstd::prelude::*;

use crate::dialogues::{
    AdapterError, ConstructionError, CtxResult, CtxResultView, DialInteraction, HandlingError,
    MessageId, Selector,
};

pub mod handler;

verus! {

/// Ghost record of one confirmed adapter call, carrying what was sent and the
/// identifier the adapter assigned. A failed call confirms nothing and leaves
/// the log unchanged.
pub enum AdapterEvent {
    Sent { user_id: u64, content: Seq<char>, message_id: MessageId },
    SentKeyboard {
        user_id: u64,
        content: Seq<char>,
        selector: Seq<Seq<char>>,
        message_id: MessageId,
    },
    Deleted { user_id: u64, message_ids: Seq<MessageId> },
}

/// The messaging transport the dispatcher sends through. Implementations keep
/// a ghost log of their confirmed calls, oldest first; each operation appends
/// exactly its own confirmation on success and nothing on failure.
pub trait BotAdapter: Sized {
    /// Ghost log of confirmed calls, oldest first. The default is left
    /// unconstrained; an implementation proved against this trait gives its
    /// own.
    open spec fn events(&self) -> Seq<AdapterEvent> {
        arbitrary()
    }

    /// Send one message to the user; on success the adapter assigns the
    /// returned identifier and the confirmation is appended to the log.
    fn send_message(&mut self, user_id: u64, content: &str) -> (r: Result<
        MessageId,
        AdapterError,
    >)
        ensures
            match r {
                Ok(id) => final(self).events() == old(self).events().push(
                    AdapterEvent::Sent { user_id, content: content@, message_id: id },
                ),
                Err(_) => final(self).events() == old(self).events(),
            },
    ;

    /// Send one message carrying interactive choices.
    fn send_keyboard(&mut self, user_id: u64, content: &str, selector: &Selector) -> (r: Result<
        MessageId,
        AdapterError,
    >)
        ensures
            match r {
                Ok(id) => final(self).events() == old(self).events().push(
                    AdapterEvent::SentKeyboard {
                        user_id,
                        content: content@,
                        selector: selector@,
                        message_id: id,
                    },
                ),
                Err(_) => final(self).events() == old(self).events(),
            },
    ;

    /// Request deletion of exactly these messages.
    fn delete_messages(&mut self, user_id: u64, message_ids: &Vec<MessageId>) -> (r: Result<
        (),
        AdapterError,
    >)
        ensures
            match r {
                Ok(_) => final(self).events() == old(self).events().push(
                    AdapterEvent::Deleted { user_id, message_ids: message_ids@ },
                ),
                Err(_) => final(self).events() == old(self).events(),
            },
    ;
}

/// An owned, movable dialogue state-machine instance. A controller is owned by
/// exactly one place at a time — the store slot or an in-flight dispatch — and
/// is mutated only through its own operations.
pub trait DialController: Sized {
    /// What one handling step does, as a function of the controller's state:
    /// a continuation instance (or none, on a terminal transition) together
    /// with the ordered side effects of the step, or a rejection. The default
    /// is left unconstrained; an implementation proved against this trait
    /// gives its own.
    open spec fn spec_handle(&self, interaction: Seq<char>) -> Result<
        (Option<Self>, Seq<CtxResultView>),
        HandlingError,
    > {
        arbitrary()
    }

    /// The controller after it has associated these identifiers with itself.
    /// The default is left unconstrained.
    open spec fn spec_remember(&self, ids: Seq<MessageId>) -> Self {
        arbitrary()
    }

    /// Feed one interaction into the controller, consuming it.
    fn handle(self, interaction: DialInteraction) -> (r: Result<
        (Option<Self>, Vec<CtxResult>),
        HandlingError,
    >)
        ensures
            match self.spec_handle(interaction@) {
                Ok(step) => r matches Ok(actual) && actual.0 == step.0
                    && crate::dialogues::views_of(actual.1@) == step.1,
                Err(e) => r matches Err(actual) && actual == e,
            },
    ;

    /// Associate these identifiers with the controller for future reference
    /// or deletion; never fails.
    fn remember_sent_messages(&mut self, ids: Vec<MessageId>)
        ensures
            *final(self) == old(self).spec_remember(ids@),
    ;
}

/// Ghost record of one store operation.
pub enum StoreEvent {
    Took(u64),
    Constructed(u64),
    Put(u64),
}

/// The keyed store mapping user identity to the owned controller of the active
/// dialogue, together with fresh construction of a controller and its initial
/// side effects. Absence of a key means "no active dialogue; construct fresh
/// on the next interaction". Each operation is one critical section against
/// all other access to the mapping, which `&mut self` reflects; a ghost log
/// records the operations, oldest first.
pub trait DialCtxActions: Sized {
    type Controller: DialController;

    /// The stored mapping from user identity to its owned controller. The
    /// default is left unconstrained; an implementation proved against this
    /// trait gives its own.
    open spec fn controllers(&self) -> Map<u64, Self::Controller> {
        arbitrary()
    }

    /// Ghost log of store operations, oldest first. The default is left
    /// unconstrained.
    open spec fn log(&self) -> Seq<StoreEvent> {
        arbitrary()
    }

    /// What fresh construction returns for a user: a function of the store's
    /// state, untouched by taking, putting or constructing controllers. The
    /// default is left unconstrained.
    open spec fn spec_new_controller(&self, user_id: u64) -> Result<
        (Self::Controller, Seq<CtxResultView>),
        ConstructionError,
    > {
        arbitrary()
    }

    /// Atomically remove and return the stored controller, if any.
    fn take_controller(&mut self, user_id: u64) -> (r: Option<Self::Controller>)
        ensures
            final(self).controllers() == old(self).controllers().remove(user_id),
            final(self).log() == old(self).log().push(StoreEvent::Took(user_id)),
            forall|u: u64| #[trigger] final(self).spec_new_controller(u) == old(
                self,
            ).spec_new_controller(u),
            match r {
                Some(c) => old(self).controllers().contains_key(user_id) && c == old(
                    self,
                ).controllers()[user_id],
                None => !old(self).controllers().contains_key(user_id),
            },
    ;

    /// Construct a fresh controller and its initial side effects; does not
    /// itself modify the stored mapping.
    fn new_controller(&mut self, user_id: u64) -> (r: Result<
        (Self::Controller, Vec<CtxResult>),
        ConstructionError,
    >)
        ensures
            final(self).controllers() == old(self).controllers(),
            final(self).log() == old(self).log().push(StoreEvent::Constructed(user_id)),
            forall|u: u64| #[trigger] final(self).spec_new_controller(u) == old(
                self,
            ).spec_new_controller(u),
            match old(self).spec_new_controller(user_id) {
                Ok(fresh) => r matches Ok(actual) && actual.0 == fresh.0
                    && crate::dialogues::views_of(actual.1@) == fresh.1,
                Err(e) => r matches Err(actual) && actual == e,
            },
    ;

    /// Insert or overwrite the stored controller for the user.
    fn put_controller(&mut self, user_id: u64, controller: Self::Controller)
        ensures
            final(self).controllers() == old(self).controllers().insert(user_id, controller),
            final(self).log() == old(self).log().push(StoreEvent::Put(user_id)),
            forall|u: u64| #[trigger] final(self).spec_new_controller(u) == old(
                self,
            ).spec_new_controller(u),
    ;
}

} // verus!

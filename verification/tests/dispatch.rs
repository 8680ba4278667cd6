//! End-to-end behaviour of the dispatch cycle against scripted capabilities.

use dial_core::controller::handler::{handle_interaction, process_ctx_results};
use dial_core::controller::{BotAdapter, DialController, DialCtxActions};
use dial_core::dialogues::{
    AdapterError, ConstructionError, CtxResult, DispatchError, HandlingError, MessageId, Selector,
};

/// Records every confirmed call in order and assigns identifiers 1, 2, 3, ...
/// in confirmation order. A send whose content equals `fail_on` fails instead
/// of confirming.
struct MockAdapter {
    calls: Vec<String>,
    next_id: MessageId,
    fail_on: Option<String>,
}

impl MockAdapter {
    fn new() -> Self {
        MockAdapter { calls: Vec::new(), next_id: 0, fail_on: None }
    }

    fn failing_on(content: &str) -> Self {
        MockAdapter { calls: Vec::new(), next_id: 0, fail_on: Some(content.to_string()) }
    }
}

impl BotAdapter for MockAdapter {
    fn send_message(&mut self, user_id: u64, content: &str) -> Result<MessageId, AdapterError> {
        if self.fail_on.as_deref() == Some(content) {
            return Err(AdapterError { message: format!("transport refused {}", content) });
        }
        self.next_id += 1;
        self.calls.push(format!("send:{}:{}", user_id, content));
        Ok(self.next_id)
    }

    fn send_keyboard(
        &mut self,
        user_id: u64,
        content: &str,
        selector: &Selector,
    ) -> Result<MessageId, AdapterError> {
        if self.fail_on.as_deref() == Some(content) {
            return Err(AdapterError { message: format!("transport refused {}", content) });
        }
        self.next_id += 1;
        self.calls.push(format!(
            "keyboard:{}:{}:{}",
            user_id,
            content,
            selector.options.join(",")
        ));
        Ok(self.next_id)
    }

    fn delete_messages(
        &mut self,
        user_id: u64,
        message_ids: &Vec<MessageId>,
    ) -> Result<(), AdapterError> {
        self.calls.push(format!("delete:{}:{:?}", user_id, message_ids));
        Ok(())
    }
}

/// A scripted dialogue controller whose behaviour is keyed by its name.
#[derive(Debug)]
struct MockController {
    name: &'static str,
    remembered: Vec<MessageId>,
}

impl MockController {
    fn new(name: &'static str) -> Self {
        MockController { name, remembered: Vec::new() }
    }
}

impl DialController for MockController {
    fn handle(
        self,
        _interaction: String,
    ) -> Result<(Option<MockController>, Vec<CtxResult>), HandlingError> {
        match self.name {
            // Moves to a "menu" continuation and asks for one more message.
            "menu-opener" => Ok((
                Some(MockController::new("menu")),
                vec![CtxResult::Messages(vec!["Menu".to_string()])],
            )),
            // Rejects every interaction.
            "rejecting" => Err(HandlingError { message: "not now".to_string() }),
            // Ends the dialogue after one parting message.
            "terminal" => Ok((None, vec![CtxResult::Messages(vec!["Bye".to_string()])])),
            // Anything else idles: keeps itself, requests nothing.
            _ => Ok((Some(self), Vec::new())),
        }
    }

    fn remember_sent_messages(&mut self, ids: Vec<MessageId>) {
        self.remembered.extend(ids);
    }
}

/// A single-user controller store whose fresh construction always yields a
/// controller of `fresh_name` greeting with "Welcome", and which counts its
/// construction invocations.
struct MockStore {
    user_id: u64,
    slot: Option<MockController>,
    others: Vec<(u64, MockController)>,
    fresh_name: &'static str,
    fail_construction: bool,
    constructions: usize,
}

impl MockStore {
    fn empty(user_id: u64, fresh_name: &'static str) -> Self {
        MockStore {
            user_id,
            slot: None,
            others: Vec::new(),
            fresh_name,
            fail_construction: false,
            constructions: 0,
        }
    }

    fn holding(user_id: u64, controller: MockController, fresh_name: &'static str) -> Self {
        MockStore {
            user_id,
            slot: Some(controller),
            others: Vec::new(),
            fresh_name,
            fail_construction: false,
            constructions: 0,
        }
    }
}

impl DialCtxActions for MockStore {
    type Controller = MockController;

    fn take_controller(&mut self, user_id: u64) -> Option<MockController> {
        if user_id == self.user_id {
            self.slot.take()
        } else {
            None
        }
    }

    fn new_controller(
        &mut self,
        _user_id: u64,
    ) -> Result<(MockController, Vec<CtxResult>), ConstructionError> {
        self.constructions += 1;
        if self.fail_construction {
            return Err(ConstructionError { message: "factory down".to_string() });
        }
        Ok((
            MockController::new(self.fresh_name),
            vec![CtxResult::Messages(vec!["Welcome".to_string()])],
        ))
    }

    fn put_controller(&mut self, user_id: u64, controller: MockController) {
        if user_id == self.user_id {
            self.slot = Some(controller);
        } else {
            self.others.push((user_id, controller));
        }
    }
}

#[test]
fn fresh_start_sends_welcome_then_menu() {
    let mut adapter = MockAdapter::new();
    let mut store = MockStore::empty(7, "menu-opener");

    let r = handle_interaction(&7, &mut adapter, &mut store, "start".to_string());

    assert!(r.is_ok());
    assert_eq!(adapter.calls, vec!["send:7:Welcome".to_string(), "send:7:Menu".to_string()]);
    assert_eq!(store.constructions, 1);
    let committed = store.slot.expect("a controller must be committed");
    assert_eq!(committed.name, "menu");
    assert_eq!(committed.remembered, vec![1, 2]);
}

#[test]
fn handling_failure_leaves_no_controller_and_sends_nothing() {
    let mut adapter = MockAdapter::new();
    let mut store = MockStore::empty(7, "rejecting");

    let r = handle_interaction(&7, &mut adapter, &mut store, "start".to_string());

    match r {
        Err(DispatchError::Handling(h)) => assert_eq!(h.message, "not now"),
        other => panic!("expected a handling error, got {:?}", other.is_ok()),
    }
    // All side effects run only after the handling step, so nothing was sent
    // — in particular no "Menu" — and the user is left without a controller.
    assert!(adapter.calls.is_empty());
    assert!(store.slot.is_none());
}

#[test]
fn removal_requests_one_deletion_and_yields_no_identifiers() {
    let mut adapter = MockAdapter::new();
    let results = vec![CtxResult::RemoveMessages(vec![11, 12])];

    let ids = process_ctx_results(9, results, &mut adapter).expect("deletion must succeed");

    assert_eq!(adapter.calls, vec!["delete:9:[11, 12]".to_string()]);
    assert_eq!(ids.len(), 0);
}

#[test]
fn existing_controller_is_reused_without_construction() {
    let mut adapter = MockAdapter::new();
    let mut store = MockStore::holding(7, MockController::new("menu-opener"), "idle");

    let r = handle_interaction(&7, &mut adapter, &mut store, "next".to_string());

    assert!(r.is_ok());
    assert_eq!(store.constructions, 0);
    assert_eq!(adapter.calls, vec!["send:7:Menu".to_string()]);
    let committed = store.slot.expect("a controller must be committed");
    assert_eq!(committed.name, "menu");
    assert_eq!(committed.remembered, vec![1]);
}

#[test]
fn processor_confirms_each_send_in_order() {
    let mut adapter = MockAdapter::new();
    let results = vec![
        CtxResult::Messages(vec!["a".to_string(), "b".to_string()]),
        CtxResult::Buttons(
            "c".to_string(),
            Selector { options: vec!["x".to_string(), "y".to_string()] },
        ),
        CtxResult::RemoveMessages(vec![5]),
        CtxResult::Messages(vec!["d".to_string()]),
    ];

    let ids = process_ctx_results(3, results, &mut adapter).expect("all sends succeed");

    // Four individual sends: four identifiers, in adapter-confirmation order;
    // the deletion contributes none.
    assert_eq!(ids, vec![1, 2, 3, 4]);
    assert_eq!(
        adapter.calls,
        vec![
            "send:3:a".to_string(),
            "send:3:b".to_string(),
            "keyboard:3:c:x,y".to_string(),
            "delete:3:[5]".to_string(),
            "send:3:d".to_string(),
        ]
    );
}

#[test]
fn processor_stops_at_first_failure_and_discards_identifiers() {
    let mut adapter = MockAdapter::failing_on("b");
    let results = vec![CtxResult::Messages(vec![
        "a".to_string(),
        "b".to_string(),
        "c".to_string(),
    ])];

    let r = process_ctx_results(3, results, &mut adapter);

    match r {
        Err(DispatchError::Adapter(e)) => assert_eq!(e.message, "transport refused b"),
        _ => panic!("expected an adapter error"),
    }
    // Processing stopped at the failing send: "c" was never attempted, and no
    // identifier list is returned at all.
    assert_eq!(adapter.calls, vec!["send:3:a".to_string()]);
}

#[test]
fn terminal_step_installs_fresh_controller_with_its_own_identifiers() {
    let mut adapter = MockAdapter::new();
    let mut store = MockStore::holding(7, MockController::new("terminal"), "idle");

    let r = handle_interaction(&7, &mut adapter, &mut store, "quit".to_string());

    assert!(r.is_ok());
    // The terminal step's results run first, then the fallback construction's
    // initial results, as two separate bursts.
    assert_eq!(adapter.calls, vec!["send:7:Bye".to_string(), "send:7:Welcome".to_string()]);
    assert_eq!(store.constructions, 1);
    let committed = store.slot.expect("the fallback controller must be committed");
    assert_eq!(committed.name, "idle");
    // It remembers only the identifier of its own "Welcome", not "Bye"'s.
    assert_eq!(committed.remembered, vec![2]);
}

#[test]
fn fresh_terminal_dialogue_constructs_twice_and_reinstalls() {
    let mut adapter = MockAdapter::new();
    let mut store = MockStore::empty(7, "terminal");

    let r = handle_interaction(&7, &mut adapter, &mut store, "start".to_string());

    assert!(r.is_ok());
    // The initial results and the terminal step's results run as one burst;
    // the dialogue having ended, a second, independent construction runs its
    // initial results as a burst of its own.
    assert_eq!(
        adapter.calls,
        vec![
            "send:7:Welcome".to_string(),
            "send:7:Bye".to_string(),
            "send:7:Welcome".to_string(),
        ]
    );
    assert_eq!(store.constructions, 2);
    let committed = store.slot.expect("the fallback controller must be committed");
    assert_eq!(committed.name, "terminal");
    // Only the second burst's identifier is remembered.
    assert_eq!(committed.remembered, vec![3]);
}

#[test]
fn construction_failure_surfaces_and_leaves_no_controller() {
    let mut adapter = MockAdapter::new();
    let mut store = MockStore::empty(7, "menu-opener");
    store.fail_construction = true;

    let r = handle_interaction(&7, &mut adapter, &mut store, "start".to_string());

    match r {
        Err(DispatchError::Construction(e)) => assert_eq!(e.message, "factory down"),
        _ => panic!("expected a construction error"),
    }
    assert!(adapter.calls.is_empty());
    assert!(store.slot.is_none());
}

#[test]
fn adapter_failure_aborts_cycle_and_discards_dialogue() {
    let mut adapter = MockAdapter::failing_on("Menu");
    let mut store = MockStore::holding(7, MockController::new("menu-opener"), "idle");

    let r = handle_interaction(&7, &mut adapter, &mut store, "next".to_string());

    assert!(matches!(r, Err(DispatchError::Adapter(_))));
    // The controller was taken in the first step and is not replaced: the
    // next interaction will start a fresh dialogue.
    assert!(store.slot.is_none());
    assert!(adapter.calls.is_empty());
}

#[test]
fn fallback_adapter_failure_leaves_no_controller() {
    let mut adapter = MockAdapter::failing_on("Welcome");
    let mut store = MockStore::holding(7, MockController::new("terminal"), "idle");

    let r = handle_interaction(&7, &mut adapter, &mut store, "quit".to_string());

    assert!(matches!(r, Err(DispatchError::Adapter(_))));
    // The terminal step's own burst went through before the fallback's
    // greeting failed.
    assert_eq!(adapter.calls, vec!["send:7:Bye".to_string()]);
    assert_eq!(store.constructions, 1);
    assert!(store.slot.is_none());
}

#[test]
fn keyboard_send_confirms_one_identifier() {
    let mut adapter = MockAdapter::new();
    let results = vec![CtxResult::Buttons(
        "pick one".to_string(),
        Selector { options: vec!["left".to_string(), "right".to_string()] },
    )];

    let ids = process_ctx_results(4, results, &mut adapter).expect("keyboard send succeeds");

    assert_eq!(ids, vec![1]);
    assert_eq!(adapter.calls, vec!["keyboard:4:pick one:left,right".to_string()]);
}

#[test]
fn empty_result_list_sends_nothing() {
    let mut adapter = MockAdapter::new();

    let ids = process_ctx_results(2, Vec::new(), &mut adapter).expect("nothing to do");

    assert!(ids.is_empty());
    assert!(adapter.calls.is_empty());
}

#[test]
fn interaction_for_another_user_constructs_independently() {
    let mut adapter = MockAdapter::new();
    let mut store = MockStore::holding(7, MockController::new("menu-opener"), "idle");

    // The store holds a controller for user 7 only; user 8 gets a fresh one.
    let r = handle_interaction(&8, &mut adapter, &mut store, "hello".to_string());

    assert!(r.is_ok());
    assert_eq!(store.constructions, 1);
    assert_eq!(adapter.calls, vec!["send:8:Welcome".to_string()]);
    // User 7's controller is untouched; user 8 got a controller of its own.
    assert!(store.slot.is_some());
    assert_eq!(store.others.len(), 1);
    assert_eq!(store.others[0].0, 8);
    assert_eq!(store.others[0].1.remembered, vec![1]);
}

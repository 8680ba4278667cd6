//! The dispatch cycle: obtain a controller (existing or freshly constructed),
//! feed it the interaction, execute the requested side effects through the
//! adapter in order, and commit a controller back to the store.

use vstd::prelude::*;

use crate::controller::{AdapterEvent, BotAdapter, DialController, DialCtxActions, StoreEvent};
use crate::dialogues::{
    AnyResult, ConstructionError, CtxResult, CtxResultView, DialInteraction, DispatchError,
    HandlerResult, MessageId, views_of,
};

verus! {

/// One elementary adapter call that a request list demands.
pub enum AdapterOp {
    SendMessage(Seq<char>),
    SendKeyboard(Seq<char>, Seq<Seq<char>>),
    DeleteMessages(Seq<MessageId>),
}

/// The elementary calls one request demands, in order.
pub open spec fn ops_of_result(r: CtxResultView) -> Seq<AdapterOp> {
    match r {
        CtxResultView::Messages(messages) => messages.map_values(
            |m: Seq<char>| AdapterOp::SendMessage(m),
        ),
        CtxResultView::Buttons(message, selector) => seq![
            AdapterOp::SendKeyboard(message, selector),
        ],
        CtxResultView::RemoveMessages(ids) => seq![AdapterOp::DeleteMessages(ids)],
    }
}

/// The elementary calls a request list demands, order kept within and across
/// the requests.
pub open spec fn flat_ops(results: Seq<CtxResultView>) -> Seq<AdapterOp>
    decreases results.len(),
{
    if results.len() == 0 {
        Seq::empty()
    } else {
        flat_ops(results.drop_last()) + ops_of_result(results.last())
    }
}

/// Whether one confirmed adapter event is the execution of one elementary call
/// for this user. The message identifier is the adapter's choice and is left
/// free.
pub open spec fn op_matches(user_id: u64, op: AdapterOp, e: AdapterEvent) -> bool {
    match (op, e) {
        (
            AdapterOp::SendMessage(m),
            AdapterEvent::Sent { user_id: u, content, message_id: _ },
        ) => u == user_id && content == m,
        (
            AdapterOp::SendKeyboard(m, s),
            AdapterEvent::SentKeyboard { user_id: u, content, selector, message_id: _ },
        ) => u == user_id && content == m && selector == s,
        (
            AdapterOp::DeleteMessages(ids),
            AdapterEvent::Deleted { user_id: u, message_ids },
        ) => u == user_id && message_ids == ids,
        _ => false,
    }
}

/// The events are exactly the full, ordered execution of the calls.
pub open spec fn is_application(user_id: u64, ops: Seq<AdapterOp>, events: Seq<AdapterEvent>) -> bool {
    &&& events.len() == ops.len()
    &&& forall|i: int| 0 <= i < ops.len() ==> op_matches(user_id, ops[i], #[trigger] events[i])
}

/// The events are the ordered execution of a leading part of the calls:
/// processing stopped before the rest.
pub open spec fn is_partial_application(
    user_id: u64,
    ops: Seq<AdapterOp>,
    events: Seq<AdapterEvent>,
) -> bool {
    &&& events.len() <= ops.len()
    &&& forall|i: int| 0 <= i < events.len() ==> op_matches(user_id, ops[i], #[trigger] events[i])
}

/// The identifiers of the newly created messages among these events, in
/// adapter-confirmation order. Deletions contribute nothing.
pub open spec fn sent_ids(events: Seq<AdapterEvent>) -> Seq<MessageId>
    decreases events.len(),
{
    if events.len() == 0 {
        Seq::empty()
    } else {
        sent_ids(events.drop_last()) + (match events.last() {
            AdapterEvent::Sent { message_id, .. } => seq![message_id],
            AdapterEvent::SentKeyboard { message_id, .. } => seq![message_id],
            AdapterEvent::Deleted { .. } => Seq::empty(),
        })
    }
}

/// How many of these calls create a message (and so yield an identifier).
pub open spec fn send_count(ops: Seq<AdapterOp>) -> nat
    decreases ops.len(),
{
    if ops.len() == 0 {
        0
    } else {
        send_count(ops.drop_last()) + (match ops.last() {
            AdapterOp::DeleteMessages(_) => 0nat,
            _ => 1nat,
        })
    }
}

/// Flattening distributes over concatenation of request lists.
pub proof fn lemma_flat_ops_concat(a: Seq<CtxResultView>, b: Seq<CtxResultView>)
    ensures
        flat_ops(a + b) == flat_ops(a) + flat_ops(b),
    decreases b.len(),
{
    if b.len() == 0 {
        assert(a + b =~= a);
        assert(flat_ops(a) + flat_ops(b) =~= flat_ops(a));
    } else {
        lemma_flat_ops_concat(a, b.drop_last());
        assert((a + b).drop_last() =~= a + b.drop_last());
        assert((a + b).last() == b.last());
        assert(flat_ops(a) + flat_ops(b.drop_last()) + ops_of_result(b.last()) =~= flat_ops(a)
            + flat_ops(b));
    }
}

/// One more request flattens to one more block of elementary calls.
pub proof fn lemma_flat_ops_take_succ(results: Seq<CtxResultView>, i: int)
    requires
        0 <= i < results.len(),
    ensures
        flat_ops(results.take(i + 1)) == flat_ops(results.take(i)) + ops_of_result(results[i]),
{
    assert(results.take(i + 1).drop_last() =~= results.take(i));
    assert(results.take(i + 1).last() == results[i]);
}

/// A full, ordered execution confirms exactly one identifier per message-creating
/// call: the output identifier list of such an execution has one entry per
/// individual send, in confirmation order.
pub proof fn lemma_application_confirms_each_send(
    user_id: u64,
    ops: Seq<AdapterOp>,
    events: Seq<AdapterEvent>,
)
    requires
        is_application(user_id, ops, events),
    ensures
        sent_ids(events).len() == send_count(ops),
    decreases ops.len(),
{
    if ops.len() > 0 {
        assert(op_matches(user_id, ops.last(), events[ops.len() - 1]));
        assert(is_application(user_id, ops.drop_last(), events.drop_last()));
        lemma_application_confirms_each_send(user_id, ops.drop_last(), events.drop_last());
    }
}

/// Translate an ordered list of side-effect requests into ordered adapter
/// calls. On success the result is exactly the identifiers of the newly
/// created messages, in adapter-confirmation order. On the first adapter
/// failure processing stops, the call fails, and the identifiers gathered so
/// far are discarded: the confirmed calls are then a strictly leading part of
/// the requested ones.
pub fn process_ctx_results<B: BotAdapter>(
    user_id: u64,
    ctx_results: Vec<CtxResult>,
    bot: &mut B,
) -> (r: AnyResult<Vec<MessageId>>)
    ensures
        old(bot).events().is_prefix_of(final(bot).events()),
        ({
            let new_events = final(bot).events().skip(old(bot).events().len() as int);
            let ops = flat_ops(views_of(ctx_results@));
            match r {
                Ok(ids) => is_application(user_id, ops, new_events) && ids@ == sent_ids(
                    new_events,
                ),
                Err(e) => {
                    &&& e matches DispatchError::Adapter(_)
                    &&& is_partial_application(user_id, ops, new_events)
                    &&& new_events.len() < ops.len()
                },
            }
        }),
{
    let ghost base = old(bot).events();
    let ghost all = views_of(ctx_results@);
    let mut sent_msg_ids: Vec<MessageId> = Vec::new();
    let n = ctx_results.len();
    let mut i: usize = 0;
    while i < n
        invariant
            n == ctx_results@.len(),
            i <= n,
            all == views_of(ctx_results@),
            base == old(bot).events(),
            base.is_prefix_of(bot.events()),
            is_application(
                user_id,
                flat_ops(all.take(i as int)),
                bot.events().skip(base.len() as int),
            ),
            sent_msg_ids@ == sent_ids(bot.events().skip(base.len() as int)),
        decreases n - i,
    {
        let ghost done_ops = flat_ops(all.take(i as int));
        proof {
            lemma_flat_ops_take_succ(all, i as int);
            assert(all.take(n as int) =~= all);
            lemma_flat_ops_concat(all.take(i as int + 1), all.skip(i as int + 1));
            assert(all.take(i as int + 1) + all.skip(i as int + 1) =~= all);
            assert(all[i as int] == ctx_results@[i as int]@);
        }
        match &ctx_results[i] {
            CtxResult::Messages(messages) => {
                let ghost msg_views = messages@.map_values(|s: String| s@);
                let m = messages.len();
                let mut j: usize = 0;
                while j < m
                    invariant
                        m == messages@.len(),
                        j <= m,
                        msg_views == messages@.map_values(|s: String| s@),
                        base.is_prefix_of(bot.events()),
                        ops_of_result(CtxResultView::Messages(msg_views)) == msg_views.map_values(
                            |mv: Seq<char>| AdapterOp::SendMessage(mv),
                        ),
                        is_application(
                            user_id,
                            done_ops + msg_views.take(j as int).map_values(
                                |mv: Seq<char>| AdapterOp::SendMessage(mv),
                            ),
                            bot.events().skip(base.len() as int),
                        ),
                        sent_msg_ids@ == sent_ids(bot.events().skip(base.len() as int)),
                        done_ops + ops_of_result(CtxResultView::Messages(msg_views))
                            == flat_ops(all.take(i as int + 1)),
                        flat_ops(all) == flat_ops(all.take(i as int + 1)) + flat_ops(
                            all.skip(i as int + 1),
                        ),
                        0 <= i < n,
                        n == ctx_results@.len(),
                        all == views_of(ctx_results@),
                        base == old(bot).events(),
                    decreases m - j,
                {
                    let ghost pre_events = bot.events();
                    let ghost part_ops = done_ops + msg_views.take(j as int).map_values(
                        |mv: Seq<char>| AdapterOp::SendMessage(mv),
                    );
                    match bot.send_message(user_id, messages[j].as_str()) {
                        Ok(id) => {
                            sent_msg_ids.push(id);
                            proof {
                                let ev = AdapterEvent::Sent {
                                    user_id,
                                    content: msg_views[j as int],
                                    message_id: id,
                                };
                                assert(bot.events().skip(base.len() as int) =~= pre_events.skip(
                                    base.len() as int,
                                ).push(ev));
                                assert(msg_views.take(j as int + 1).map_values(
                                    |mv: Seq<char>| AdapterOp::SendMessage(mv),
                                ) =~= msg_views.take(j as int).map_values(
                                    |mv: Seq<char>| AdapterOp::SendMessage(mv),
                                ).push(AdapterOp::SendMessage(msg_views[j as int])));
                                let grown = part_ops.push(
                                    AdapterOp::SendMessage(msg_views[j as int]),
                                );
                                assert(grown =~= done_ops + msg_views.take(j as int + 1).map_values(
                                    |mv: Seq<char>| AdapterOp::SendMessage(mv),
                                ));
                                let post_new = pre_events.skip(base.len() as int).push(ev);
                                assert(post_new.drop_last() =~= pre_events.skip(base.len() as int));
                                assert(base.is_prefix_of(bot.events()));
                                assert(sent_ids(post_new) =~= sent_ids(
                                    pre_events.skip(base.len() as int),
                                ) + seq![id]);
                            }
                        },
                        Err(e) => {
                            proof {
                                assert(part_ops.len() < flat_ops(all.take(i as int + 1)).len());
                                assert(part_ops.is_prefix_of(flat_ops(all.take(i as int + 1))));
                                assert(is_partial_application(
                                    user_id,
                                    flat_ops(all),
                                    bot.events().skip(base.len() as int),
                                ));
                            }
                            return Err(DispatchError::Adapter(e));
                        },
                    }
                    j += 1;
                }
                proof {
                    assert(msg_views.take(m as int) =~= msg_views);
                }
            },
            CtxResult::Buttons(message, selector) => {
                let ghost pre_events = bot.events();
                match bot.send_keyboard(user_id, message.as_str(), selector) {
                    Ok(id) => {
                        sent_msg_ids.push(id);
                        proof {
                            let ev = AdapterEvent::SentKeyboard {
                                user_id,
                                content: message@,
                                selector: selector@,
                                message_id: id,
                            };
                            let post_new = pre_events.skip(base.len() as int).push(ev);
                            assert(bot.events().skip(base.len() as int) =~= post_new);
                            assert(post_new.drop_last() =~= pre_events.skip(base.len() as int));
                            assert(flat_ops(all.take(i as int + 1)) =~= done_ops.push(
                                AdapterOp::SendKeyboard(message@, selector@),
                            ));
                            assert(sent_ids(post_new) =~= sent_ids(
                                pre_events.skip(base.len() as int),
                            ) + seq![id]);
                        }
                    },
                    Err(e) => {
                        proof {
                            assert(done_ops.len() < flat_ops(all.take(i as int + 1)).len());
                            assert(done_ops.is_prefix_of(flat_ops(all.take(i as int + 1))));
                            assert(is_partial_application(
                                user_id,
                                flat_ops(all),
                                bot.events().skip(base.len() as int),
                            ));
                        }
                        return Err(DispatchError::Adapter(e));
                    },
                }
            },
            CtxResult::RemoveMessages(ids) => {
                let ghost pre_events = bot.events();
                match bot.delete_messages(user_id, ids) {
                    Ok(_) => {
                        proof {
                            let ev = AdapterEvent::Deleted { user_id, message_ids: ids@ };
                            let post_new = pre_events.skip(base.len() as int).push(ev);
                            assert(bot.events().skip(base.len() as int) =~= post_new);
                            assert(post_new.drop_last() =~= pre_events.skip(base.len() as int));
                            assert(flat_ops(all.take(i as int + 1)) =~= done_ops.push(
                                AdapterOp::DeleteMessages(ids@),
                            ));
                            assert(sent_ids(post_new) =~= sent_ids(
                                pre_events.skip(base.len() as int),
                            ));
                        }
                    },
                    Err(e) => {
                        proof {
                            assert(done_ops.len() < flat_ops(all.take(i as int + 1)).len());
                            assert(done_ops.is_prefix_of(flat_ops(all.take(i as int + 1))));
                            assert(is_partial_application(
                                user_id,
                                flat_ops(all),
                                bot.events().skip(base.len() as int),
                            ));
                        }
                        return Err(DispatchError::Adapter(e));
                    },
                }
            },
        }
        i += 1;
    }
    proof {
        assert(all.take(n as int) =~= all);
    }
    Ok(sent_msg_ids)
}

/// What a dispatch cycle does once a controller has been obtained and its
/// handling step has succeeded: `continuation` and `ops` are the step's
/// continuation and the elementary calls its combined side effects demand,
/// `taken_log` is the store log as it stands after the controller was
/// obtained, and `ev` the adapter events the cycle appended in all.
pub open spec fn dispatch_tail<S: DialCtxActions>(
    user_id: u64,
    pre: S,
    post: S,
    ev: Seq<AdapterEvent>,
    continuation: Option<<S as DialCtxActions>::Controller>,
    ops: Seq<AdapterOp>,
    taken_log: Seq<StoreEvent>,
    r: HandlerResult,
) -> bool {
    let m = pre.controllers();
    match r {
        Ok(_) => match continuation {
            // The step's own continuation, with the freshly confirmed
            // identifiers remembered, is committed.
            Some(c1) => {
                &&& is_application(user_id, ops, ev)
                &&& post.controllers() == m.insert(user_id, c1.spec_remember(sent_ids(ev)))
                &&& post.log() == taken_log.push(StoreEvent::Put(user_id))
            },
            // Terminal transition: a second, independent cycle constructs a
            // fresh controller, executes its initial results separately, and
            // commits it with those identifiers — and only those — remembered.
            None => match pre.spec_new_controller(user_id) {
                Ok(fresh) => {
                    let ops2 = flat_ops(fresh.1);
                    let ev1 = ev.take(ops.len() as int);
                    let ev2 = ev.skip(ops.len() as int);
                    &&& ev.len() == ops.len() + ops2.len()
                    &&& is_application(user_id, ops, ev1)
                    &&& is_application(user_id, ops2, ev2)
                    &&& post.controllers() == m.insert(
                        user_id,
                        fresh.0.spec_remember(sent_ids(ev2)),
                    )
                    &&& post.log() == taken_log + seq![
                        StoreEvent::Constructed(user_id),
                        StoreEvent::Put(user_id),
                    ]
                },
                Err(_) => false,
            },
        },
        Err(e) => match e {
            // A transport failure aborts the cycle: nothing is committed, and
            // the confirmed calls are a strictly leading part of the demanded
            // ones — either of the step's own, or, on the fallback path, of
            // the fresh controller's initial ones after the step's succeeded.
            DispatchError::Adapter(_) => {
                &&& post.controllers() == m.remove(user_id)
                &&& ({
                    ||| {
                        &&& post.log() == taken_log
                        &&& is_partial_application(user_id, ops, ev)
                        &&& ev.len() < ops.len()
                    }
                    ||| {
                        &&& continuation is None
                        &&& post.log() == taken_log.push(StoreEvent::Constructed(user_id))
                        &&& match pre.spec_new_controller(user_id) {
                            Ok(fresh) => {
                                let ops2 = flat_ops(fresh.1);
                                let ev1 = ev.take(ops.len() as int);
                                let ev2 = ev.skip(ops.len() as int);
                                &&& is_application(user_id, ops, ev1)
                                &&& is_partial_application(user_id, ops2, ev2)
                                &&& ev2.len() < ops2.len()
                            },
                            Err(_) => false,
                        }
                    }
                })
            },
            // Fallback construction failed after the step's results were
            // fully executed; nothing is committed.
            DispatchError::Construction(ce) => {
                &&& continuation is None
                &&& pre.spec_new_controller(user_id) == Err::<
                    (<S as DialCtxActions>::Controller, Seq<CtxResultView>),
                    ConstructionError,
                >(ce)
                &&& is_application(user_id, ops, ev)
                &&& post.controllers() == m.remove(user_id)
                &&& post.log() == taken_log.push(StoreEvent::Constructed(user_id))
            },
            DispatchError::Handling(_) => false,
        },
    }
}

/// Everything one dispatch cycle does, as a relation between the store and
/// adapter before and after the call, the interaction, and the outcome. `ev`
/// is the sequence of adapter events the cycle appended.
pub open spec fn dispatch_post<S: DialCtxActions>(
    user_id: u64,
    pre: S,
    post: S,
    pre_events: Seq<AdapterEvent>,
    post_events: Seq<AdapterEvent>,
    interaction: Seq<char>,
    r: HandlerResult,
) -> bool {
    let ev = post_events.skip(pre_events.len() as int);
    let m = pre.controllers();
    let lg = pre.log();
    if m.contains_key(user_id) {
        // The stored controller alone handles the interaction; fresh
        // construction is reached only on the terminal fallback path.
        let c0 = m[user_id];
        match c0.spec_handle(interaction) {
            Ok(step) => dispatch_tail(
                user_id,
                pre,
                post,
                ev,
                step.0,
                flat_ops(step.1),
                lg.push(StoreEvent::Took(user_id)),
                r,
            ),
            Err(h) => {
                &&& r == Err::<(), DispatchError>(DispatchError::Handling(h))
                &&& post.controllers() == m.remove(user_id)
                &&& post.log() == lg.push(StoreEvent::Took(user_id))
                &&& ev == Seq::<AdapterEvent>::empty()
            },
        }
    } else {
        // No active dialogue: construct fresh, then feed the interaction into
        // the fresh controller; its initial results run first, the handling
        // results after them, in that concatenation order.
        match pre.spec_new_controller(user_id) {
            Ok(fresh) => match fresh.0.spec_handle(interaction) {
                Ok(step) => dispatch_tail(
                    user_id,
                    pre,
                    post,
                    ev,
                    step.0,
                    flat_ops(fresh.1) + flat_ops(step.1),
                    lg + seq![StoreEvent::Took(user_id), StoreEvent::Constructed(user_id)],
                    r,
                ),
                Err(h) => {
                    &&& r == Err::<(), DispatchError>(DispatchError::Handling(h))
                    &&& post.controllers() == m.remove(user_id)
                    &&& post.log() == lg + seq![
                        StoreEvent::Took(user_id),
                        StoreEvent::Constructed(user_id),
                    ]
                    &&& ev == Seq::<AdapterEvent>::empty()
                },
            },
            Err(ce) => {
                &&& r == Err::<(), DispatchError>(DispatchError::Construction(ce))
                &&& post.controllers() == m.remove(user_id)
                &&& post.log() == lg + seq![
                    StoreEvent::Took(user_id),
                    StoreEvent::Constructed(user_id),
                ]
                &&& ev == Seq::<AdapterEvent>::empty()
            },
        }
    }
}

/// How many fresh constructions for this user a store log records.
pub open spec fn constructions_in(log: Seq<StoreEvent>, user_id: u64) -> nat
    decreases log.len(),
{
    if log.len() == 0 {
        0
    } else {
        constructions_in(log.drop_last(), user_id) + (match log.last() {
            StoreEvent::Constructed(u) => if u == user_id {
                1nat
            } else {
                0nat
            },
            _ => 0nat,
        })
    }
}

/// Appending one store event changes the construction count by one exactly
/// when the event is a construction for this user.
pub proof fn lemma_constructions_push(log: Seq<StoreEvent>, e: StoreEvent, user_id: u64)
    ensures
        constructions_in(log.push(e), user_id) == constructions_in(log, user_id) + (match e {
            StoreEvent::Constructed(u) => if u == user_id {
                1nat
            } else {
                0nat
            },
            _ => 0nat,
        }),
{
    assert(log.push(e).drop_last() =~= log);
}

/// When a controller is stored for the user and its handling step yields a
/// continuation, the dispatch cycle invokes only that controller's handling
/// and never the store's fresh construction: however the cycle ends, the
/// store log records no new construction for any user.
pub proof fn lemma_existing_controller_never_constructs<S: DialCtxActions>(
    user_id: u64,
    pre: S,
    post: S,
    pre_events: Seq<AdapterEvent>,
    post_events: Seq<AdapterEvent>,
    interaction: Seq<char>,
    r: HandlerResult,
)
    requires
        dispatch_post(user_id, pre, post, pre_events, post_events, interaction, r),
        pre.controllers().contains_key(user_id),
        match pre.controllers()[user_id].spec_handle(interaction) {
            Ok(step) => step.0 is Some,
            Err(_) => true,
        },
    ensures
        forall|u: u64| #[trigger] constructions_in(post.log(), u) == constructions_in(
            pre.log(),
            u,
        ),
{
    assert forall|u: u64| #[trigger] constructions_in(post.log(), u) == constructions_in(
        pre.log(),
        u,
    ) by {
        let lg = pre.log();
        match pre.controllers()[user_id].spec_handle(interaction) {
            Ok(_) => {
                lemma_constructions_push(lg, StoreEvent::Took(user_id), u);
                lemma_constructions_push(
                    lg.push(StoreEvent::Took(user_id)),
                    StoreEvent::Put(user_id),
                    u,
                );
            },
            Err(_) => {
                lemma_constructions_push(lg, StoreEvent::Took(user_id), u);
            },
        }
    }
}

/// When no controller is stored for the user and the fresh controller's
/// handling step yields a continuation, the dispatch cycle invokes fresh
/// construction exactly once, and on success it executes the initial results
/// and then the handling results in exactly that concatenation order.
pub proof fn lemma_fresh_construction_once_in_order<S: DialCtxActions>(
    user_id: u64,
    pre: S,
    post: S,
    pre_events: Seq<AdapterEvent>,
    post_events: Seq<AdapterEvent>,
    interaction: Seq<char>,
    r: HandlerResult,
)
    requires
        dispatch_post(user_id, pre, post, pre_events, post_events, interaction, r),
        !pre.controllers().contains_key(user_id),
        match pre.spec_new_controller(user_id) {
            Ok(fresh) => match fresh.0.spec_handle(interaction) {
                Ok(step) => step.0 is Some,
                Err(_) => true,
            },
            Err(_) => true,
        },
    ensures
        constructions_in(post.log(), user_id) == constructions_in(pre.log(), user_id) + 1,
        match pre.spec_new_controller(user_id) {
            Ok(fresh) => match fresh.0.spec_handle(interaction) {
                Ok(step) => r is Ok ==> is_application(
                    user_id,
                    flat_ops(fresh.1) + flat_ops(step.1),
                    post_events.skip(pre_events.len() as int),
                ),
                Err(_) => true,
            },
            Err(_) => true,
        },
{
    let lg = pre.log();
    let took = lg + seq![StoreEvent::Took(user_id), StoreEvent::Constructed(user_id)];
    assert(took =~= lg.push(StoreEvent::Took(user_id)).push(StoreEvent::Constructed(user_id)));
    lemma_constructions_push(lg, StoreEvent::Took(user_id), user_id);
    lemma_constructions_push(lg.push(StoreEvent::Took(user_id)), StoreEvent::Constructed(user_id), user_id);
    match pre.spec_new_controller(user_id) {
        Ok(fresh) => match fresh.0.spec_handle(interaction) {
            Ok(_) => {
                lemma_constructions_push(took, StoreEvent::Put(user_id), user_id);
            },
            Err(_) => {},
        },
        Err(_) => {},
    }
}

/// When the handling step of the stored controller returns no continuation
/// and the cycle succeeds, the committed controller is the freshly
/// constructed fallback one, remembering exactly the identifiers of its own
/// initial results — one per individual send of those results, and none from
/// the terminal step.
pub proof fn lemma_terminal_commits_fresh_controller<S: DialCtxActions>(
    user_id: u64,
    pre: S,
    post: S,
    pre_events: Seq<AdapterEvent>,
    post_events: Seq<AdapterEvent>,
    interaction: Seq<char>,
    r: HandlerResult,
)
    requires
        dispatch_post(user_id, pre, post, pre_events, post_events, interaction, r),
        r is Ok,
        pre.controllers().contains_key(user_id),
        match pre.controllers()[user_id].spec_handle(interaction) {
            Ok(step) => step.0 is None,
            Err(_) => false,
        },
    ensures
        match pre.spec_new_controller(user_id) {
            Ok(fresh) => ({
                let step = match pre.controllers()[user_id].spec_handle(interaction) {
                    Ok(step) => step,
                    Err(_) => arbitrary(),
                };
                let ev = post_events.skip(pre_events.len() as int);
                let own_events = ev.skip(flat_ops(step.1).len() as int);
                &&& post.controllers()[user_id] == fresh.0.spec_remember(sent_ids(own_events))
                &&& sent_ids(own_events).len() == send_count(flat_ops(fresh.1))
            }),
            // A successful terminal cycle implies the fallback construction
            // succeeded.
            Err(_) => false,
        },
{
    match pre.spec_new_controller(user_id) {
        Ok(fresh) => {
            let step = match pre.controllers()[user_id].spec_handle(interaction) {
                Ok(step) => step,
                Err(_) => arbitrary(),
            };
            let ev = post_events.skip(pre_events.len() as int);
            let own_events = ev.skip(flat_ops(step.1).len() as int);
            lemma_application_confirms_each_send(user_id, flat_ops(fresh.1), own_events);
        },
        Err(_) => {},
    }
}

/// Dispatch one inbound interaction for one user: atomically take the stored
/// controller (or construct a fresh one and prepend its initial results),
/// feed the interaction into it, execute the combined ordered results through
/// the adapter, and commit a controller — the continuation, or on a terminal
/// transition a freshly constructed one — with the confirmed identifiers
/// remembered. Any failure aborts the cycle: the controller taken in the
/// first step is then simply not replaced, and the next interaction starts a
/// fresh dialogue. [`dispatch_post`] states the whole protocol; after a
/// successful cycle exactly one controller is stored for the user.
pub fn handle_interaction<S: DialCtxActions, B: BotAdapter>(
    user_id: &u64,
    bot: &mut B,
    context: &mut S,
    interaction: DialInteraction,
) -> (r: HandlerResult)
    ensures
        old(bot).events().is_prefix_of(final(bot).events()),
        forall|u: u64| #[trigger] final(context).spec_new_controller(u) == old(
            context,
        ).spec_new_controller(u),
        r matches Ok(_) ==> final(context).controllers().contains_key(*user_id),
        dispatch_post(
            *user_id,
            *old(context),
            *final(context),
            old(bot).events(),
            final(bot).events(),
            interaction@,
            r,
        ),
{
    let uid = *user_id;
    let ghost m = old(context).controllers();
    let ghost base = old(bot).events();
    proof {
        assert(base.skip(base.len() as int) =~= Seq::<AdapterEvent>::empty());
        assert(base.take(base.len() as int) =~= base);
    }

    let dial_controller = context.take_controller(uid);

    let (controller, results): (Option<<S as DialCtxActions>::Controller>, Vec<CtxResult>) =
        match dial_controller {
        Some(c0) => {
            match c0.handle(interaction) {
                Ok(pair) => pair,
                Err(h) => {
                    return Err(DispatchError::Handling(h));
                },
            }
        },
        None => {
            match context.new_controller(uid) {
                Ok((c0, results0)) => {
                    match c0.handle(interaction) {
                        Ok((cont, results1)) => {
                            let mut combined = results0;
                            let mut tail = results1;
                            let ghost head_views = views_of(combined@);
                            let ghost tail_views = views_of(tail@);
                            combined.append(&mut tail);
                            proof {
                                assert(views_of(combined@) =~= head_views + tail_views);
                                lemma_flat_ops_concat(head_views, tail_views);
                            }
                            (cont, combined)
                        },
                        Err(h) => {
                            proof {
                                assert(context.log() =~= old(context).log() + seq![
                                    StoreEvent::Took(uid),
                                    StoreEvent::Constructed(uid),
                                ]);
                            }
                            return Err(DispatchError::Handling(h));
                        },
                    }
                },
                Err(ce) => {
                    proof {
                        assert(context.log() =~= old(context).log() + seq![
                            StoreEvent::Took(uid),
                            StoreEvent::Constructed(uid),
                        ]);
                    }
                    return Err(DispatchError::Construction(ce));
                },
            }
        },
    };
    let ghost taken_log = context.log();
    let ghost ops = flat_ops(views_of(results@));
    proof {
        assert(old(context).log().push(StoreEvent::Took(uid)).push(StoreEvent::Constructed(uid))
            =~= old(context).log() + seq![StoreEvent::Took(uid), StoreEvent::Constructed(uid)]);
    }

    let sent_msg_ids = match process_ctx_results(uid, results, bot) {
        Ok(ids) => ids,
        Err(e) => {
            return Err(e);
        },
    };
    let ghost ev1 = bot.events().skip(base.len() as int);

    match controller {
        Some(mut controller) => {
            controller.remember_sent_messages(sent_msg_ids);
            context.put_controller(uid, controller);
            proof {
                assert(context.controllers() =~= m.insert(uid, controller));
            }
            Ok(())
        },
        None => {
            match context.new_controller(uid) {
                Ok((fresh_c, fresh_results)) => {
                    let ghost mid = bot.events();
                    match process_ctx_results(uid, fresh_results, bot) {
                        Ok(ids2) => {
                            let ghost ev2 = bot.events().skip(mid.len() as int);
                            let mut fresh_c = fresh_c;
                            fresh_c.remember_sent_messages(ids2);
                            context.put_controller(uid, fresh_c);
                            proof {
                                let ev = bot.events().skip(base.len() as int);
                                assert(ev =~= ev1 + ev2);
                                assert(ev.take(ops.len() as int) =~= ev1);
                                assert(ev.skip(ops.len() as int) =~= ev2);
                                assert(base.is_prefix_of(bot.events())) by {
                                    assert(bot.events().take(base.len() as int) =~= base);
                                }
                                assert(context.controllers() =~= m.insert(uid, fresh_c));
                                assert(context.log() =~= taken_log + seq![
                                    StoreEvent::Constructed(uid),
                                    StoreEvent::Put(uid),
                                ]);
                            }
                            Ok(())
                        },
                        Err(e) => {
                            proof {
                                let ev = bot.events().skip(base.len() as int);
                                let ev2 = bot.events().skip(mid.len() as int);
                                assert(ev =~= ev1 + ev2);
                                assert(ev.take(ops.len() as int) =~= ev1);
                                assert(ev.skip(ops.len() as int) =~= ev2);
                                assert(base.is_prefix_of(bot.events())) by {
                                    assert(bot.events().take(base.len() as int) =~= base);
                                }
                            }
                            return Err(e);
                        },
                    }
                },
                Err(ce) => {
                    return Err(DispatchError::Construction(ce));
                },
            }
        },
    }
}

} // verus!

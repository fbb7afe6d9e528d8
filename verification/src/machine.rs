//! The pipeline one batch goes through: look up the peers, ask them for
//! their inventories, download what they have.

use vstd::prelude::*;
use crate::batched::{
    BatchedRequestsState, requests_action_for, requests_step, RequestsAction, RequestsEvent,
};
use crate::context::{
    attachment_views, AttachmentsBatchStateContext, faulty_event_ids, inventory_views,
    merge_attachments, merge_inventories,
};
use crate::dns::{BatchedDNSLookupsState, DnsAction, DnsEvent, dns_action_for, dns_step};
use crate::pq::pushed_all;
use crate::requests::{AttachmentRequest, AttachmentsInventoryRequest, Requestable};

verus! {

/// Where a batch stands in the pipeline.
#[derive(Debug)]
pub enum AttachmentsBatchStateMachine {
    Initialized(AttachmentsBatchStateContext),
    DNSLookup(BatchedDNSLookupsState, AttachmentsBatchStateContext),
    DownloadingAttachmentsInv(
        BatchedRequestsState<AttachmentsInventoryRequest>,
        AttachmentsBatchStateContext,
    ),
    DownloadingAttachment(BatchedRequestsState<AttachmentRequest>, AttachmentsBatchStateContext),
    Done(AttachmentsBatchStateContext),
}

/// What happened outside since the last step.
#[derive(Debug)]
pub enum BatchEvent {
    /// Nothing: the step needs no news.
    Tick,
    Dns(DnsEvent),
    Requests(RequestsEvent),
}

/// What the machine needs done outside before its next step.
#[derive(Debug)]
pub enum BatchAction {
    Nothing,
    Dns(DnsAction),
    Requests(RequestsAction),
}

/// `after` is `before` but for the tables that merging changes.
pub open spec fn same_but_tables(
    before: AttachmentsBatchStateContext,
    after: AttachmentsBatchStateContext,
) -> bool {
    &&& after.attachments_batch == before.attachments_batch
    &&& after.connection_options == before.connection_options
    &&& after.dns_lookups == before.dns_lookups
    &&& after.peers@.dom() == before.peers@.dom()
}

/// The machine that is to send `queue`, with nothing sent yet.
pub open spec fn fresh<T: Requestable>(s: BatchedRequestsState<T>, items: Seq<T>) -> bool {
    &&& s matches BatchedRequestsState::BeginRequests(q, res)
    &&& q.items@ == items
    &&& res.remaining.entries@.len() == 0
    &&& res.succeeded.entries@.len() == 0
    &&& res.faulty_peers.entries@.len() == 0
    &&& res.errors.entries@.len() == 0
}

/// How one step takes `fsm` to `next` on `event`. The states follow one
/// another in one direction only; each moves on when its own machine is
/// done, and an event that is not what the state waits for changes
/// nothing.
pub open spec fn batch_step(
    fsm: AttachmentsBatchStateMachine,
    event: BatchEvent,
    next: AttachmentsBatchStateMachine,
) -> bool {
    match fsm {
        AttachmentsBatchStateMachine::Initialized(ctx) => {
            &&& next matches AttachmentsBatchStateMachine::DNSLookup(d, c)
            &&& c == ctx
            &&& d matches BatchedDNSLookupsState::Initialized(urls)
            &&& urls@.len() == ctx.peers.entries@.len()
            &&& forall|i: int| 0 <= i < urls@.len() ==> #[trigger] urls@[i] == ctx.peers.entries@[i].0
        },
        AttachmentsBatchStateMachine::DNSLookup(d, ctx) => match event {
            BatchEvent::Dns(e) => exists|d1: BatchedDNSLookupsState|
                #![trigger dns_step(d, e, d1)]
                {
                    &&& dns_step(d, e, d1)
                    &&& match d1 {
                        BatchedDNSLookupsState::Done(results) => {
                            &&& next matches AttachmentsBatchStateMachine::DownloadingAttachmentsInv(
                                s,
                                c,
                            )
                            &&& c.dns_lookups@ == ctx.dns_lookups@.union_prefer_right(
                                results.dns_lookups@,
                            )
                            &&& c.attachments_batch == ctx.attachments_batch
                            &&& c.peers == ctx.peers
                            &&& c.connection_options == ctx.connection_options
                            &&& c.inventories == ctx.inventories
                            &&& c.attachments == ctx.attachments
                            &&& c.events_to_deregister == ctx.events_to_deregister
                            &&& exists|requests: Seq<AttachmentsInventoryRequest>|
                                {
                                    &&& inventory_views(requests) == c.inventory_plan()
                                    &&& #[trigger] fresh(s, pushed_all(requests))
                                }
                        },
                        _ => next == AttachmentsBatchStateMachine::DNSLookup(d1, ctx),
                    }
                },
            _ => next == fsm,
        },
        AttachmentsBatchStateMachine::DownloadingAttachmentsInv(s, ctx) => match event {
            BatchEvent::Requests(e) => exists|s1: BatchedRequestsState<AttachmentsInventoryRequest>|
                #![trigger requests_step(s, e, ctx.connection_options.max_inflight_attachments, s1)]
                {
                    &&& requests_step(s, e, ctx.connection_options.max_inflight_attachments, s1)
                    &&& match s1 {
                        BatchedRequestsState::Done(results) => {
                            &&& next matches AttachmentsBatchStateMachine::DownloadingAttachment(
                                s2,
                                c,
                            )
                            &&& same_but_tables(ctx, c)
                            &&& c.tables() == merge_inventories(
                                ctx.tables(),
                                results.succeeded.entries@,
                            )
                            &&& c.events_to_deregister@ == ctx.events_to_deregister@
                                + faulty_event_ids(results.faulty_peers.entries@)
                            &&& exists|requests: Seq<AttachmentRequest>|
                                {
                                    &&& attachment_views(requests) == c.attachment_plan()
                                    &&& #[trigger] fresh(s2, pushed_all(requests))
                                }
                        },
                        _ => next == AttachmentsBatchStateMachine::DownloadingAttachmentsInv(s1, ctx),
                    }
                },
            _ => next == fsm,
        },
        AttachmentsBatchStateMachine::DownloadingAttachment(s, ctx) => match event {
            BatchEvent::Requests(e) => exists|s1: BatchedRequestsState<AttachmentRequest>|
                #![trigger requests_step(s, e, ctx.connection_options.max_inflight_attachments, s1)]
                {
                    &&& requests_step(s, e, ctx.connection_options.max_inflight_attachments, s1)
                    &&& match s1 {
                        BatchedRequestsState::Done(results) => {
                            &&& next matches AttachmentsBatchStateMachine::Done(c)
                            &&& same_but_tables(ctx, c)
                            &&& c.tables() == merge_attachments(
                                ctx.tables(),
                                results.succeeded.entries@,
                            )
                            &&& c.events_to_deregister@ == ctx.events_to_deregister@
                                + faulty_event_ids(results.faulty_peers.entries@)
                        },
                        _ => next == AttachmentsBatchStateMachine::DownloadingAttachment(s1, ctx),
                    }
                },
            _ => next == fsm,
        },
        AttachmentsBatchStateMachine::Done(_) => next == fsm,
    }
}

/// Whether `a` is what `fsm` needs done outside before its next step:
/// what the machine of its state needs; nothing where it has none.
pub open spec fn batch_action_for(fsm: AttachmentsBatchStateMachine, a: BatchAction) -> bool {
    match fsm {
        AttachmentsBatchStateMachine::Initialized(_) => a is Nothing,
        AttachmentsBatchStateMachine::DNSLookup(d, _) => a matches BatchAction::Dns(x)
            && dns_action_for(d, x),
        AttachmentsBatchStateMachine::DownloadingAttachmentsInv(s, c) => a == BatchAction::Requests(
            requests_action_for(s, c.connection_options.max_inflight_attachments),
        ),
        AttachmentsBatchStateMachine::DownloadingAttachment(s, c) => a == BatchAction::Requests(
            requests_action_for(s, c.connection_options.max_inflight_attachments),
        ),
        AttachmentsBatchStateMachine::Done(_) => a is Nothing,
    }
}

impl AttachmentsBatchStateMachine {
    /// The context the machine works on.
    pub open spec fn context(&self) -> AttachmentsBatchStateContext {
        match self {
            AttachmentsBatchStateMachine::Initialized(c) => *c,
            AttachmentsBatchStateMachine::DNSLookup(_, c) => *c,
            AttachmentsBatchStateMachine::DownloadingAttachmentsInv(_, c) => *c,
            AttachmentsBatchStateMachine::DownloadingAttachment(_, c) => *c,
            AttachmentsBatchStateMachine::Done(c) => *c,
        }
    }

    /// How many requests a fresh context may still count for its peers:
    /// its inventory requests, and one download per missing attachment.
    pub open spec fn planned(ctx: AttachmentsBatchStateContext) -> nat {
        ctx.inventory_plan().len() + ctx.attachments_batch.count_spec()
    }

    /// The parts are well-formed, every request held goes to a peer of
    /// the batch, and the peers' reports can count the requests still to
    /// come.
    pub open spec fn wf(&self) -> bool {
        match self {
            AttachmentsBatchStateMachine::Initialized(c) => c.wf() && c.headroom(Self::planned(*c)),
            AttachmentsBatchStateMachine::DNSLookup(d, c) => {
                &&& d.wf()
                &&& !(d is Done)
                &&& c.wf()
                &&& c.headroom(Self::planned(*c))
            },
            AttachmentsBatchStateMachine::DownloadingAttachmentsInv(s, c) => {
                &&& s.wf()
                &&& !(s is Done)
                &&& c.wf()
                &&& c.headroom(s.total() + c.attachments_batch.count_spec())
                &&& forall|r: AttachmentsInventoryRequest|
                    #[trigger] s.holds(r) ==> c.peers@.contains_key(r.url@)
            },
            AttachmentsBatchStateMachine::DownloadingAttachment(s, c) => {
                &&& s.wf()
                &&& !(s is Done)
                &&& c.wf()
                &&& c.headroom(s.total())
                &&& forall|r: AttachmentRequest|
                    #[trigger] s.holds(r) ==> c.peers@.contains_key(r.url_spec()@)
            },
            AttachmentsBatchStateMachine::Done(c) => c.wf(),
        }
    }

    /// The machine of a batch that is about to begin.
    pub fn new(ctx: AttachmentsBatchStateContext) -> (r: AttachmentsBatchStateMachine)
        ensures
            r == AttachmentsBatchStateMachine::Initialized(ctx),
    {
        AttachmentsBatchStateMachine::Initialized(ctx)
    }

    /// What has to happen outside before the next step.
    pub fn next_action(&self) -> (a: BatchAction)
        ensures
            batch_action_for(*self, a),
    {
        match self {
            AttachmentsBatchStateMachine::Initialized(_) => BatchAction::Nothing,
            AttachmentsBatchStateMachine::DNSLookup(d, _) => BatchAction::Dns(d.next_action()),
            AttachmentsBatchStateMachine::DownloadingAttachmentsInv(s, c) => BatchAction::Requests(
                s.next_action(c.connection_options.max_inflight_attachments),
            ),
            AttachmentsBatchStateMachine::DownloadingAttachment(s, c) => BatchAction::Requests(
                s.next_action(c.connection_options.max_inflight_attachments),
            ),
            AttachmentsBatchStateMachine::Done(_) => BatchAction::Nothing,
        }
    }

    /// One step of the pipeline.
    pub fn try_proceed(fsm: AttachmentsBatchStateMachine, event: BatchEvent) -> (next:
        AttachmentsBatchStateMachine)
        requires
            fsm.wf(),
            !(fsm is Done),
        ensures
            next.wf(),
            batch_step(fsm, event, next),
            next.context().attachments_batch == fsm.context().attachments_batch,
            next.context().connection_options == fsm.context().connection_options,
            next.context().peers@.dom() == fsm.context().peers@.dom(),
    {
        match fsm {
            AttachmentsBatchStateMachine::Initialized(context) => {
                let sub_state = BatchedDNSLookupsState::new(context.get_peers_urls());
                let next = AttachmentsBatchStateMachine::DNSLookup(sub_state, context);
                assert(batch_step(fsm, event, next));
                next
            },
            AttachmentsBatchStateMachine::DNSLookup(dns_lookup_state, context) => {
                match event {
                    BatchEvent::Dns(e) => {
                        let d1 = BatchedDNSLookupsState::try_proceed(dns_lookup_state, &e);
                        assert(dns_step(dns_lookup_state, e, d1));
                        match d1 {
                            BatchedDNSLookupsState::Done(results) => {
                                let context = context.extend_with_dns_lookups(results);
                                let requests_queue =
                                    context.get_prioritized_attachments_inventory_requests();
                                let sub_state = BatchedRequestsState::new(requests_queue);
                                assert forall|r: AttachmentsInventoryRequest| #[trigger]
                                    sub_state.holds(r) implies context.peers@.contains_key(r.url@) by {
                                    let i = choose|i: int|
                                        0 <= i < requests_queue.items@.len()
                                            && requests_queue.items@[i] == r;
                                    assert(context.peers@.contains_key(requests_queue.items@[i].url@));
                                }
                                proof {
                                    let requests = choose|requests: Seq<AttachmentsInventoryRequest>|
                                        inventory_views(requests) == context.inventory_plan()
                                            && requests_queue.items@ == pushed_all(requests);
                                    assert(fresh(sub_state, pushed_all(requests)));
                                }
                                let next = AttachmentsBatchStateMachine::DownloadingAttachmentsInv(
                                    sub_state,
                                    context,
                                );
                                assert(batch_step(fsm, event, next));
                                next
                            },
                            state => {
                                let next = AttachmentsBatchStateMachine::DNSLookup(state, context);
                                assert(batch_step(fsm, event, next));
                                next
                            },
                        }
                    },
                    BatchEvent::Tick => AttachmentsBatchStateMachine::DNSLookup(
                        dns_lookup_state,
                        context,
                    ),
                    BatchEvent::Requests(_) => AttachmentsBatchStateMachine::DNSLookup(
                        dns_lookup_state,
                        context,
                    ),
                }
            },
            AttachmentsBatchStateMachine::DownloadingAttachmentsInv(
                attachments_invs_requests,
                context,
            ) => {
                match event {
                    BatchEvent::Requests(e) => {
                        let s1 = BatchedRequestsState::try_proceed(
                            attachments_invs_requests,
                            e,
                            context.connection_options.max_inflight_attachments,
                        );
                        assert(requests_step(
                            attachments_invs_requests,
                            e,
                            context.connection_options.max_inflight_attachments,
                            s1,
                        ));
                        match s1 {
                            BatchedRequestsState::Done(results) => {
                                assert forall|i: int|
                                    0 <= i < results.succeeded.entries@.len()
                                    implies context.peers@.contains_key(
                                    (#[trigger] results.succeeded.entries@[i]).0.url@,
                                ) by {
                                    assert(s1.holds(results.succeeded.entries@[i].0));
                                }
                                let context = context.extend_with_inventories(results);
                                let requests_queue = context.get_prioritized_attachments_requests();
                                let sub_state = BatchedRequestsState::new(requests_queue);
                                assert forall|r: AttachmentRequest| #[trigger]
                                    sub_state.holds(r) implies context.peers@.contains_key(
                                    r.url_spec()@,
                                ) by {
                                    let i = choose|i: int|
                                        0 <= i < requests_queue.items@.len()
                                            && requests_queue.items@[i] == r;
                                    assert(context.peers@.contains_key(
                                        requests_queue.items@[i].url_spec()@,
                                    ));
                                }
                                proof {
                                    let requests = choose|requests: Seq<AttachmentRequest>|
                                        attachment_views(requests) == context.attachment_plan()
                                            && requests_queue.items@ == pushed_all(requests);
                                    assert(fresh(sub_state, pushed_all(requests)));
                                }
                                let next = AttachmentsBatchStateMachine::DownloadingAttachment(
                                    sub_state,
                                    context,
                                );
                                assert(batch_step(fsm, event, next));
                                next
                            },
                            state => {
                                let next = AttachmentsBatchStateMachine::DownloadingAttachmentsInv(
                                    state,
                                    context,
                                );
                                assert(batch_step(fsm, event, next));
                                next
                            },
                        }
                    },
                    BatchEvent::Tick => AttachmentsBatchStateMachine::DownloadingAttachmentsInv(
                        attachments_invs_requests,
                        context,
                    ),
                    BatchEvent::Dns(_) => AttachmentsBatchStateMachine::DownloadingAttachmentsInv(
                        attachments_invs_requests,
                        context,
                    ),
                }
            },
            AttachmentsBatchStateMachine::DownloadingAttachment(attachments_requests, context) => {
                match event {
                    BatchEvent::Requests(e) => {
                        let s1 = BatchedRequestsState::try_proceed(
                            attachments_requests,
                            e,
                            context.connection_options.max_inflight_attachments,
                        );
                        assert(requests_step(
                            attachments_requests,
                            e,
                            context.connection_options.max_inflight_attachments,
                            s1,
                        ));
                        match s1 {
                            BatchedRequestsState::Done(results) => {
                                assert forall|i: int|
                                    0 <= i < results.succeeded.entries@.len()
                                    implies context.peers@.contains_key(
                                    (#[trigger] results.succeeded.entries@[i]).0.url_spec()@,
                                ) by {
                                    assert(s1.holds(results.succeeded.entries@[i].0));
                                }
                                let context = context.extend_with_attachments(results);
                                let next = AttachmentsBatchStateMachine::Done(context);
                                assert(batch_step(fsm, event, next));
                                next
                            },
                            state => {
                                let next = AttachmentsBatchStateMachine::DownloadingAttachment(
                                    state,
                                    context,
                                );
                                assert(batch_step(fsm, event, next));
                                next
                            },
                        }
                    },
                    BatchEvent::Tick => AttachmentsBatchStateMachine::DownloadingAttachment(
                        attachments_requests,
                        context,
                    ),
                    BatchEvent::Dns(_) => AttachmentsBatchStateMachine::DownloadingAttachment(
                        attachments_requests,
                        context,
                    ),
                }
            },
            AttachmentsBatchStateMachine::Done(context) => AttachmentsBatchStateMachine::Done(context),
        }
    }
}

} // verus!

//! Resolving the data URLs of a batch's peers: a two-step machine that
//! first queues one lookup per domain and then collects the answers.

use vstd::prelude::*;
use crate::types::{IpAddress, NetError, SocketAddress};
use crate::vecmap::VecMap;

verus! {

/// `url::ParseError`, which the library only passes on.
#[verifier::external_type_specification]
#[verifier::external_body]
pub struct ExUrlParseError(url::ParseError);

/// The host part of a parsed URL.
#[derive(Debug)]
pub enum UrlHost {
    Absent,
    Domain(String),
    Ipv4(u32),
    Ipv6(u128),
}

/// What this library reads of a parsed URL.
#[derive(Debug)]
pub struct UrlParts {
    pub host: UrlHost,
    /// The port written in the URL, or the one its scheme is known by.
    pub port: Option<u16>,
}

/// The parts `url::Url::parse` finds in a string, `None` where it
/// refuses the string.
pub uninterp spec fn url_parts(s: Seq<char>) -> Option<UrlParts>;

/// Calls `url::Url::parse`, and on success `Url::host` and
/// `Url::port_or_known_default`. The result is a function of the string
/// alone, which the contract names `url_parts`.
#[verifier::external_body]
fn parse_url(s: &str) -> (r: Result<UrlParts, url::ParseError>)
    ensures
        match r {
            Ok(p) => url_parts(s@) == Some(p),
            Err(_) => url_parts(s@).is_none(),
        },
{
    let u = url::Url::parse(s)?;
    let host = match u.host() {
        None => UrlHost::Absent,
        Some(url::Host::Domain(d)) => UrlHost::Domain(d.to_string()),
        Some(url::Host::Ipv4(a)) => UrlHost::Ipv4(u32::from(a)),
        Some(url::Host::Ipv6(a)) => UrlHost::Ipv6(u128::from(a)),
    };
    Ok(UrlParts { host, port: u.port_or_known_default() })
}

/// A lookup handed to the resolver.
#[derive(Debug)]
pub struct DNSRequest {
    pub host: String,
    pub port: u16,
    pub timeout: u128,
}

impl DNSRequest {
    pub fn new(host: String, port: u16, timeout: u128) -> (r: DNSRequest)
        ensures
            r == (DNSRequest { host, port, timeout }),
    {
        DNSRequest { host, port, timeout }
    }
}

impl Clone for DNSRequest {
    fn clone(&self) -> (r: Self)
        ensures
            r == *self,
    {
        DNSRequest { host: self.host.clone(), port: self.port, timeout: self.timeout }
    }
}

/// What is to be done about one peer URL.
#[derive(Debug)]
pub enum LookupTarget {
    /// Nothing: the URL is empty, or has no host or no port.
    Skip,
    /// The URL does not parse.
    Invalid(NetError),
    /// The URL names an address: there is nothing to look up.
    Address(SocketAddress),
    /// The URL names a domain, which the resolver has to look up.
    Domain(DNSRequest),
}

/// What is to be done about a URL that parsed into `parts`.
pub open spec fn target_of_parts(parts: Option<UrlParts>) -> LookupTarget {
    match parts {
        None => LookupTarget::Invalid(NetError::InvalidUrl),
        Some(p) => match p.port {
            None => LookupTarget::Skip,
            Some(port) => match p.host {
                UrlHost::Absent => LookupTarget::Skip,
                UrlHost::Domain(d) => LookupTarget::Domain(
                    DNSRequest { host: d, port, timeout: 0 },
                ),
                UrlHost::Ipv4(a) => LookupTarget::Address(
                    SocketAddress { ip: IpAddress::V4(a), port },
                ),
                UrlHost::Ipv6(a) => LookupTarget::Address(
                    SocketAddress { ip: IpAddress::V6(a), port },
                ),
            },
        },
    }
}

/// What is to be done about the URL `url`.
pub open spec fn target_for(url: Seq<char>) -> LookupTarget {
    if url.len() == 0 {
        LookupTarget::Skip
    } else {
        target_of_parts(url_parts(url))
    }
}

/// Classifies a parsed URL: an address is used as it is, a domain is to be
/// looked up, and a URL without host or port is passed over.
pub fn target_from_parts(parts: Option<UrlParts>) -> (t: LookupTarget)
    ensures
        t == target_of_parts(parts),
{
    match parts {
        None => LookupTarget::Invalid(NetError::InvalidUrl),
        Some(p) => match p.port {
            None => LookupTarget::Skip,
            Some(port) => match p.host {
                UrlHost::Absent => LookupTarget::Skip,
                UrlHost::Domain(d) => LookupTarget::Domain(DNSRequest::new(d, port, 0)),
                UrlHost::Ipv4(a) => LookupTarget::Address(
                    SocketAddress { ip: IpAddress::V4(a), port },
                ),
                UrlHost::Ipv6(a) => LookupTarget::Address(
                    SocketAddress { ip: IpAddress::V6(a), port },
                ),
            },
        },
    }
}

/// Parses one peer URL and says what is to be done about it.
pub fn lookup_target(url: &String) -> (t: LookupTarget)
    ensures
        t == target_for(url@),
{
    if url.as_str().is_empty() {
        return LookupTarget::Skip;
    }
    match parse_url(url.as_str()) {
        Ok(p) => target_from_parts(Some(p)),
        Err(_) => target_from_parts(None),
    }
}

/// When a lookup queued at `now_ms` is given up.
pub fn lookup_deadline(now_ms: u128, dns_timeout: u128) -> (r: u128)
    requires
        now_ms + dns_timeout <= u128::MAX,
    ensures
        r == now_ms + dns_timeout,
{
    now_ms + dns_timeout
}

/// What the resolver said when a lookup was handed to it.
#[derive(Debug)]
pub enum QueueOutcome {
    Queued,
    Refused(NetError),
}

/// What the resolver says of a lookup it was asked about.
#[derive(Debug)]
pub enum PollOutcome {
    /// No answer yet.
    Pending,
    /// The addresses of the host.
    Resolved(Vec<SocketAddress>),
    /// The lookup was answered with a failure.
    Failed(String),
    /// The resolver could not be asked.
    Errored(NetError),
}

/// What happened outside since the last step.
#[derive(Debug)]
pub enum DnsEvent {
    /// One outcome per URL of the batch, in their order; those of URLs
    /// that name no domain are not read.
    Queued(Vec<QueueOutcome>),
    /// The resolver's answers could not be received.
    ReceiveFailed,
    /// One answer per queued lookup, in the order of `parsed_urls`.
    Polled(Vec<PollOutcome>),
}

/// What the machine needs done outside before its next step.
#[derive(Debug)]
pub enum DnsAction {
    /// Queue a lookup for each `Domain` target; one target per URL.
    QueueLookups(Vec<LookupTarget>),
    /// Ask the resolver about each of these lookups.
    Poll(Vec<DNSRequest>),
    /// Nothing: the machine is done.
    Nothing,
}

/// What a round of lookups has come to: the lookups queued, the
/// addresses found, and the URLs given up.
#[derive(Debug)]
pub struct BatchedDNSLookupsResults {
    pub parsed_urls: VecMap<String, DNSRequest>,
    pub dns_lookups: VecMap<String, Option<Vec<SocketAddress>>>,
    pub errors: VecMap<String, NetError>,
}

/// The three tables of a lookup round, by URL.
pub struct DnsTables {
    /// The lookups that were queued.
    pub parsed: Map<Seq<char>, DNSRequest>,
    /// The addresses found so far; `None` while a lookup is open.
    pub lookups: Map<Seq<char>, Option<Seq<SocketAddress>>>,
    /// The URLs given up, each with its reason.
    pub errors: Map<Seq<char>, NetError>,
}

/// The addresses of a lookup as a sequence.
pub open spec fn addrs_view(v: Option<Vec<SocketAddress>>) -> Option<Seq<SocketAddress>> {
    match v {
        Some(a) => Some(a@),
        None => None,
    }
}

impl View for BatchedDNSLookupsResults {
    type V = DnsTables;

    open spec fn view(&self) -> DnsTables {
        DnsTables {
            parsed: self.parsed_urls@,
            lookups: self.dns_lookups@.map_values(|v: Option<Vec<SocketAddress>>| addrs_view(v)),
            errors: self.errors@,
        }
    }
}

/// The tables of a round in which nothing has happened yet.
pub open spec fn empty_tables() -> DnsTables {
    DnsTables { parsed: Map::empty(), lookups: Map::empty(), errors: Map::empty() }
}

/// The tables after the URL `url` was dealt with, `outcome` being what the
/// resolver said if a lookup was queued for it.
pub open spec fn queue_one(t: DnsTables, url: Seq<char>, outcome: QueueOutcome) -> DnsTables {
    match target_for(url) {
        LookupTarget::Skip => t,
        LookupTarget::Invalid(e) => DnsTables { errors: t.errors.insert(url, e), ..t },
        LookupTarget::Address(a) => DnsTables { lookups: t.lookups.insert(url, Some(seq![a])), ..t },
        LookupTarget::Domain(req) => match outcome {
            QueueOutcome::Queued => DnsTables {
                parsed: t.parsed.insert(url, req),
                lookups: t.lookups.insert(url, None),
                ..t
            },
            QueueOutcome::Refused(e) => DnsTables { errors: t.errors.insert(url, e), ..t },
        },
    }
}

/// The tables after the first `n` URLs were dealt with.
pub open spec fn queue_all(urls: Seq<String>, outcomes: Seq<QueueOutcome>, n: int) -> DnsTables
    decreases n,
{
    if n <= 0 {
        empty_tables()
    } else {
        queue_one(queue_all(urls, outcomes, n - 1), urls[n - 1]@, outcomes[n - 1])
    }
}

/// The tables after the resolver's `reply` about the lookup of `url`: an
/// answer fills the slot of a lookup that was asked for, an error gives the
/// URL up, anything else changes nothing.
pub open spec fn poll_one(t: DnsTables, url: Seq<char>, reply: PollOutcome) -> DnsTables {
    match reply {
        PollOutcome::Resolved(addrs) => if t.lookups.contains_key(url) {
            DnsTables { lookups: t.lookups.insert(url, Some(addrs@)), ..t }
        } else {
            t
        },
        PollOutcome::Errored(e) => DnsTables { errors: t.errors.insert(url, e), ..t },
        PollOutcome::Pending => t,
        PollOutcome::Failed(_) => t,
    }
}

/// The tables after the replies about the first `n` queued lookups.
pub open spec fn poll_all(
    t: DnsTables,
    queued: Seq<(String, DNSRequest)>,
    replies: Seq<PollOutcome>,
    n: int,
) -> DnsTables
    decreases n,
{
    if n <= 0 {
        t
    } else {
        poll_one(poll_all(t, queued, replies, n - 1), queued[n - 1].0@, replies[n - 1])
    }
}

/// Whether one of the first `n` replies says that a lookup is still open.
pub open spec fn any_pending(replies: Seq<PollOutcome>, n: int) -> bool {
    exists|i: int| 0 <= i < n && i < replies.len() && #[trigger] replies[i] is Pending
}

impl BatchedDNSLookupsResults {
    pub open spec fn wf(&self) -> bool {
        &&& self.parsed_urls.wf()
        &&& self.dns_lookups.wf()
        &&& self.errors.wf()
    }

    pub fn new() -> (r: BatchedDNSLookupsResults)
        ensures
            r.wf(),
            r@ == empty_tables(),
    {
        let r = BatchedDNSLookupsResults {
            parsed_urls: VecMap::new(),
            dns_lookups: VecMap::new(),
            errors: VecMap::new(),
        };
        assert(r@.lookups =~= Map::empty());
        r
    }

    /// Records under `url` the addresses found, or `None` for an open lookup.
    fn set_lookup(&mut self, url: String, addrs: Option<Vec<SocketAddress>>)
        requires
            old(self).wf(),
        ensures
            final(self).wf(),
            final(self)@ == (DnsTables {
                lookups: old(self)@.lookups.insert(url@, addrs_view(addrs)),
                ..old(self)@
            }),
            final(self).parsed_urls == old(self).parsed_urls,
            final(self).errors == old(self).errors,
    {
        self.dns_lookups.insert(url, addrs);
        assert(self@.lookups =~= old(self)@.lookups.insert(url@, addrs_view(addrs)));
    }
}

fn copy_addrs(v: &Vec<SocketAddress>) -> (r: Vec<SocketAddress>)
    ensures
        r@ == v@,
{
    let mut out: Vec<SocketAddress> = Vec::new();
    let mut i: usize = 0;
    while i < v.len()
        invariant
            i <= v@.len(),
            out@ == v@.subrange(0, i as int),
        decreases v@.len() - i,
    {
        out.push(v[i]);
        i += 1;
        assert(out@ =~= v@.subrange(0, i as int));
    }
    assert(v@.subrange(0, v@.len() as int) =~= v@);
    out
}

/// The machine that resolves the URLs of a batch's peers.
#[derive(Debug)]
pub enum BatchedDNSLookupsState {
    Initialized(Vec<String>),
    Resolving(BatchedDNSLookupsResults),
    Done(BatchedDNSLookupsResults),
}

/// How one step takes `fsm` to `next` on `event`. An event that does not
/// answer what the state asked for changes nothing.
pub open spec fn dns_step(
    fsm: BatchedDNSLookupsState,
    event: DnsEvent,
    next: BatchedDNSLookupsState,
) -> bool {
    match fsm {
        BatchedDNSLookupsState::Initialized(urls) => match event {
            DnsEvent::Queued(outcomes) => if outcomes@.len() == urls@.len() {
                &&& next matches BatchedDNSLookupsState::Resolving(r)
                &&& r@ == queue_all(urls@, outcomes@, urls@.len() as int)
            } else {
                next == fsm
            },
            _ => next == fsm,
        },
        BatchedDNSLookupsState::Resolving(r0) => match event {
            DnsEvent::Polled(replies) => if replies@.len() == r0.parsed_urls.entries@.len() {
                let n = replies@.len() as int;
                let t = poll_all(r0@, r0.parsed_urls.entries@, replies@, n);
                if any_pending(replies@, n) {
                    &&& next matches BatchedDNSLookupsState::Resolving(r)
                    &&& r@ == t
                    &&& r.parsed_urls == r0.parsed_urls
                } else {
                    &&& next matches BatchedDNSLookupsState::Done(r)
                    &&& r@ == t
                    &&& r.parsed_urls == r0.parsed_urls
                }
            } else {
                next == fsm
            },
            _ => next == fsm,
        },
        BatchedDNSLookupsState::Done(_) => next == fsm,
    }
}

/// Whether `a` is what `state` needs done outside before its next step:
/// the lookups to queue, one target per URL, or the queued lookups to ask
/// about.
pub open spec fn dns_action_for(state: BatchedDNSLookupsState, a: DnsAction) -> bool {
    match state {
        BatchedDNSLookupsState::Initialized(urls) => {
            &&& a matches DnsAction::QueueLookups(targets)
            &&& targets@.len() == urls@.len()
            &&& forall|i: int| 0 <= i < urls@.len() ==> #[trigger] targets@[i] == target_for(urls@[i]@)
        },
        BatchedDNSLookupsState::Resolving(r) => {
            &&& a matches DnsAction::Poll(requests)
            &&& requests@.len() == r.parsed_urls.entries@.len()
            &&& forall|i: int|
                0 <= i < requests@.len() ==> #[trigger] requests@[i] == r.parsed_urls.entries@[i].1
        },
        BatchedDNSLookupsState::Done(_) => a is Nothing,
    }
}

impl BatchedDNSLookupsState {
    pub open spec fn wf(&self) -> bool {
        match self {
            BatchedDNSLookupsState::Initialized(_) => true,
            BatchedDNSLookupsState::Resolving(r) => r.wf(),
            BatchedDNSLookupsState::Done(r) => r.wf(),
        }
    }

    pub fn new(urls: Vec<String>) -> (r: BatchedDNSLookupsState)
        ensures
            r == BatchedDNSLookupsState::Initialized(urls),
            r.wf(),
    {
        BatchedDNSLookupsState::Initialized(urls)
    }

    /// What has to happen outside before the next step: the lookups to
    /// queue, one target per URL, or the queued lookups to ask about.
    pub fn next_action(&self) -> (a: DnsAction)
        ensures
            dns_action_for(*self, a),
    {
        match self {
            BatchedDNSLookupsState::Initialized(urls) => {
                let mut targets: Vec<LookupTarget> = Vec::new();
                let mut i: usize = 0;
                while i < urls.len()
                    invariant
                        i <= urls@.len(),
                        targets@.len() == i,
                        forall|j: int| 0 <= j < i ==> #[trigger] targets@[j] == target_for(urls@[j]@),
                    decreases urls@.len() - i,
                {
                    targets.push(lookup_target(&urls[i]));
                    i += 1;
                }
                DnsAction::QueueLookups(targets)
            },
            BatchedDNSLookupsState::Resolving(r) => {
                let mut requests: Vec<DNSRequest> = Vec::new();
                let mut i: usize = 0;
                while i < r.parsed_urls.entries.len()
                    invariant
                        i <= r.parsed_urls.entries@.len(),
                        requests@.len() == i,
                        forall|j: int|
                            0 <= j < i ==> #[trigger] requests@[j] == r.parsed_urls.entries@[j].1,
                    decreases r.parsed_urls.entries@.len() - i,
                {
                    requests.push(r.parsed_urls.entries[i].1.clone());
                    i += 1;
                }
                DnsAction::Poll(requests)
            },
            BatchedDNSLookupsState::Done(_) => DnsAction::Nothing,
        }
    }

    /// One step of the machine. From `Initialized`, every URL is parsed:
    /// an address is recorded as resolved, a domain as an open lookup if
    /// the resolver took it, and what fails is recorded as an error. From
    /// `Resolving`, the answers are filed, and the machine is `Done` once
    /// no lookup is open.
    pub fn try_proceed(fsm: BatchedDNSLookupsState, event: &DnsEvent) -> (next:
        BatchedDNSLookupsState)
        requires
            fsm.wf(),
            !(fsm is Done),
        ensures
            next.wf(),
            dns_step(fsm, *event, next),
    {
        match fsm {
            BatchedDNSLookupsState::Initialized(urls) => {
                match event {
                    DnsEvent::Queued(outcomes) => {
                        if outcomes.len() != urls.len() {
                            return BatchedDNSLookupsState::Initialized(urls);
                        }
                        let mut state = BatchedDNSLookupsResults::new();
                        let mut i: usize = 0;
                        while i < urls.len()
                            invariant
                                i <= urls@.len(),
                                outcomes@.len() == urls@.len(),
                                state.wf(),
                                state@ == queue_all(urls@, outcomes@, i as int),
                            decreases urls@.len() - i,
                        {
                            let ghost before = state@;
                            let url: String = urls[i].clone();
                            match lookup_target(&url) {
                                LookupTarget::Skip => {},
                                LookupTarget::Invalid(e) => {
                                    state.errors.insert(url, e);
                                },
                                LookupTarget::Address(a) => {
                                    let mut addrs: Vec<SocketAddress> = Vec::new();
                                    addrs.push(a);
                                    assert(addrs@ =~= seq![a]);
                                    state.set_lookup(url, Some(addrs));
                                },
                                LookupTarget::Domain(req) => {
                                    match &outcomes[i] {
                                        QueueOutcome::Queued => {
                                            state.set_lookup(url.clone(), None);
                                            state.parsed_urls.insert(url, req);
                                        },
                                        QueueOutcome::Refused(e) => {
                                            state.errors.insert(url, e.clone());
                                        },
                                    }
                                },
                            }
                            assert(state@ == queue_one(before, urls@[i as int]@, outcomes@[i as int]));
                            i += 1;
                        }
                        BatchedDNSLookupsState::Resolving(state)
                    },
                    _ => BatchedDNSLookupsState::Initialized(urls),
                }
            },
            BatchedDNSLookupsState::Resolving(r0) => {
                match event {
                    DnsEvent::Polled(replies) => {
                        if replies.len() != r0.parsed_urls.entries.len() {
                            return BatchedDNSLookupsState::Resolving(r0);
                        }
                        let ghost queued = r0.parsed_urls.entries@;
                        let ghost start = r0@;
                        let mut state = r0;
                        let mut pending: bool = false;
                        let mut i: usize = 0;
                        while i < replies.len()
                            invariant
                                i <= replies@.len(),
                                replies@.len() == queued.len(),
                                state.wf(),
                                state.parsed_urls == r0.parsed_urls,
                                queued == r0.parsed_urls.entries@,
                                state@ == poll_all(start, queued, replies@, i as int),
                                pending == any_pending(replies@, i as int),
                            decreases replies@.len() - i,
                        {
                            let ghost before = state@;
                            let url: String = state.parsed_urls.entries[i].0.clone();
                            match &replies[i] {
                                PollOutcome::Resolved(addrs) => {
                                    if state.dns_lookups.contains_key(&url) {
                                        state.set_lookup(url, Some(copy_addrs(addrs)));
                                    }
                                },
                                PollOutcome::Errored(e) => {
                                    state.errors.insert(url, e.clone());
                                },
                                PollOutcome::Pending => {
                                    pending = true;
                                },
                                PollOutcome::Failed(_) => {},
                            }
                            assert(state@ == poll_one(before, queued[i as int].0@, replies@[i as int]));
                            i += 1;
                        }
                        if pending {
                            BatchedDNSLookupsState::Resolving(state)
                        } else {
                            BatchedDNSLookupsState::Done(state)
                        }
                    },
                    _ => BatchedDNSLookupsState::Resolving(r0),
                }
            },
            BatchedDNSLookupsState::Done(r) => BatchedDNSLookupsState::Done(r),
        }
    }
}

} // verus!

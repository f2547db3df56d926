//! The decisions of an iterative resolver.
//!
//! The resolver walks from a root server down to the server that answers.
//! It does no input or output: it says which query goes to which server, it
//! is handed each response, and it says what the response means. Lookups
//! that wait for the address of a name server lie on a stack, the current
//! one on top.

use crate::dname::DomainName;
use crate::cursor::Cursor;
use crate::message;
use crate::message::{parse_message, spec_first_of_type, Message, MessageView, MsgSection};
use crate::qtype::QType;
use crate::record::{spec_address, IpAddress, RecordView};
use vstd::prelude::*;
use vstd::utf8::encode_utf8;

verus! {

/// The address of the root server that every lookup starts from,
/// 198.41.0.4.
pub const ROOT_SERVER: u32 = 0xC629_0004;

/// The greatest number of times that one resolution lets itself be sent
/// elsewhere: to a server named by glue, to a referral or to an alias.
pub const MAX_HOPS: u32 = 30;

/// The greatest number of times that one query is sent before the server
/// counts as silent.
pub const MAX_ATTEMPTS: u32 = 3;

/// The root server that every lookup starts from.
pub open spec fn spec_root_hint() -> IpAddress {
    IpAddress::V4(ROOT_SERVER)
}

/// The root server that every lookup starts from.
pub fn root_hint() -> (addr: IpAddress)
    ensures
        addr == spec_root_hint(),
{
    IpAddress::V4(ROOT_SERVER)
}

/// What one response means for the lookup that asked.
#[derive(Debug, Clone, PartialEq, Eq)]
pub enum Decision {
    /// The answer section holds the address asked for.
    Answer(IpAddress),
    /// The additional section holds the address of a server to ask next.
    Glue(IpAddress),
    /// The authority section names a server to ask next; its address has
    /// to be looked up first.
    Referral(DomainName),
    /// The answer section says that the name is an alias of this one.
    Alias(DomainName),
    /// The response shows no way forward.
    NoUsableAnswer,
}

/// A decision as a mathematical value.
pub ghost enum DecisionView {
    Answer(IpAddress),
    Glue(IpAddress),
    Referral(Seq<Seq<u8>>),
    Alias(Seq<Seq<u8>>),
    NoUsableAnswer,
}

impl View for Decision {
    type V = DecisionView;

    open spec fn view(&self) -> DecisionView {
        match self {
            Decision::Answer(addr) => DecisionView::Answer(*addr),
            Decision::Glue(addr) => DecisionView::Glue(*addr),
            Decision::Referral(name) => DecisionView::Referral(name@),
            Decision::Alias(name) => DecisionView::Alias(name@),
            Decision::NoUsableAnswer => DecisionView::NoUsableAnswer,
        }
    }
}

/// The address that a section offers a lookup of type `target`: that of its
/// first record of type `target`, where that record holds one. A record
/// that holds no address offers none, so a section offers nothing to a
/// lookup of a type other than `A` and `AAAA`.
pub open spec fn spec_offered(records: Seq<RecordView>, target: QType) -> Option<IpAddress> {
    match spec_first_of_type(records, target) {
        Some(rec) => spec_address(rec.qtype, rec.rdata),
        None => None,
    }
}

/// What a response means for a lookup of type `target`. Four things are
/// looked for, in this order, and the first that is found decides: an
/// address that the answers offer; an address that the additionals offer,
/// which is glue; a name server among the authorities; an alias among the
/// answers. Of name servers and of aliases the first record counts. A
/// response with none of the four shows no way forward.
pub open spec fn spec_decide(target: QType, response: MessageView) -> DecisionView {
    match spec_offered(response.answers, target) {
        Some(addr) => DecisionView::Answer(addr),
        None => match spec_offered(response.additionals, target) {
            Some(addr) => DecisionView::Glue(addr),
            None => match spec_first_of_type(response.authorities, QType::NS) {
                Some(rec) => DecisionView::Referral(crate::dname::split_dots(rec.rdata)),
                None => match spec_first_of_type(response.answers, QType::CNAME) {
                    Some(rec) => DecisionView::Alias(crate::dname::split_dots(rec.rdata)),
                    None => DecisionView::NoUsableAnswer,
                },
            },
        },
    }
}

/// The address that one section of a response offers a lookup of type
/// `target`.
pub fn offered(response: &Message, target: QType, section: MsgSection) -> (r: Option<IpAddress>)
    ensures
        r == spec_offered(crate::message::spec_section(response@, section), target),
{
    match response.get_record_by_type_from(target, section) {
        Some(rec) => rec.address(),
        None => None,
    }
}

/// Says what a response means for a lookup of type `target`.
pub fn decide(target: QType, response: &Message) -> (d: Decision)
    ensures
        d@ == spec_decide(target, response@),
{
    if let Some(addr) = offered(response, target, MsgSection::Answers) {
        return Decision::Answer(addr);
    }
    if let Some(addr) = offered(response, target, MsgSection::Additionals) {
        return Decision::Glue(addr);
    }
    if let Some(rec) = response.get_record_by_type_from(QType::NS, MsgSection::Authorities) {
        return Decision::Referral(DomainName::from_text(rec.rdata.as_slice()));
    }
    if let Some(rec) = response.get_record_by_type_from(QType::CNAME, MsgSection::Answers) {
        return Decision::Alias(DomainName::from_text(rec.rdata.as_slice()));
    }
    Decision::NoUsableAnswer
}

/// Why a resolution ended without an address.
#[derive(Debug, Clone, Copy, PartialEq, Eq)]
pub enum ResolveError {
    /// What a server sent could not be read as a message.
    Decode(message::Error),
    /// A response showed no way forward.
    NoUsableAnswer,
    /// The resolution was sent elsewhere more often than `MAX_HOPS` times.
    TooManyHops,
    /// A server stayed silent through `MAX_ATTEMPTS` sendings of one query.
    TimedOut,
    /// The resolution had ended before this response came.
    Finished,
}

/// What the resolver does after a response.
#[derive(Debug, Clone, Copy, PartialEq, Eq)]
pub enum Step {
    /// The current lookup is to be sent to its name server.
    Continue,
    /// The address asked for.
    Resolved(IpAddress),
    /// The resolution has failed.
    Failed(ResolveError),
}

/// One lookup: a name, the type asked for, and the server to ask.
#[derive(Debug, Clone, PartialEq, Eq)]
pub struct Lookup {
    pub name: DomainName,
    pub qtype: QType,
    pub nameserver: IpAddress,
}

/// A lookup as a mathematical value.
pub ghost struct LookupView {
    pub name: Seq<Seq<u8>>,
    pub qtype: QType,
    pub nameserver: IpAddress,
}

impl View for Lookup {
    type V = LookupView;

    open spec fn view(&self) -> LookupView {
        LookupView { name: self.name@, qtype: self.qtype, nameserver: self.nameserver }
    }
}

/// The state of one resolution.
#[derive(Debug, Clone, PartialEq, Eq)]
pub struct Resolver {
    /// The lookups that are under way, the current one last. Each of the
    /// others waits for the address that the one behind it finds.
    pub pending: Vec<Lookup>,
    /// The number of times that glue, a referral or an alias was followed
    /// so far.
    pub hops: u32,
    /// The number of times that the current query went unanswered.
    pub attempts: u32,
}

/// The state of a resolution as a mathematical value.
pub ghost struct ResolverView {
    pub pending: Seq<LookupView>,
    pub hops: int,
    pub attempts: int,
}

impl View for Resolver {
    type V = ResolverView;

    open spec fn view(&self) -> ResolverView {
        ResolverView {
            pending: self.pending@.map_values(|l: Lookup| l@),
            hops: self.hops as int,
            attempts: self.attempts as int,
        }
    }
}

/// The lookup of `name` that starts at the root.
pub open spec fn spec_lookup(name: Seq<Seq<u8>>, qtype: QType) -> LookupView {
    LookupView { name, qtype, nameserver: spec_root_hint() }
}

/// The state that has ended.
pub open spec fn spec_ended(hops: int) -> ResolverView {
    ResolverView { pending: Seq::<LookupView>::empty(), hops, attempts: 0 }
}

/// The state after the current query went unanswered, and what to do next:
/// the query is sent again, under a fresh id, until it has gone unanswered
/// `MAX_ATTEMPTS` times; then the resolution fails.
pub open spec fn spec_timeout(state: ResolverView) -> (ResolverView, Step) {
    if state.pending.len() == 0 {
        (state, Step::Failed(ResolveError::Finished))
    } else if state.attempts + 1 >= MAX_ATTEMPTS {
        (spec_ended(state.hops), Step::Failed(ResolveError::TimedOut))
    } else {
        (ResolverView { attempts: state.attempts + 1, ..state }, Step::Continue)
    }
}

/// The state after a datagram came in while the query under the id
/// `query_id` was out, and what to do next, if anything.
///
/// A datagram that cannot be read as a message ends the resolution with the
/// error of the reading. A message that is no response, or that carries
/// another id, is passed over: nothing changes and nothing is to be done
/// but to wait on. A response to the query is decided on for the type of
/// the current lookup, and the decision is applied.
pub open spec fn spec_receive(state: ResolverView, query_id: u16, datagram: Seq<u8>) -> (
    ResolverView,
    Option<Step>,
) {
    if state.pending.len() == 0 {
        (state, Some(Step::Failed(ResolveError::Finished)))
    } else {
        match parse_message(datagram, 0) {
            Err(e) => (spec_ended(state.hops), Some(Step::Failed(ResolveError::Decode(e)))),
            Ok((response, _)) => {
                if !response.header.flags.query_response || response.header.id != query_id {
                    (state, None)
                } else {
                    (
                        spec_step(state, spec_decide(state.pending.last().qtype, response)).0,
                        Some(
                            spec_step(
                                state,
                                spec_decide(state.pending.last().qtype, response),
                            ).1,
                        ),
                    )
                }
            },
        }
    }
}

/// The state after a decision, and what to do next.
///
/// An answer ends the current lookup: the lookup that waited for it goes on
/// with the address as its name server, and where none waited the address
/// is the result. Glue changes the name server of the current lookup. A
/// referral puts a lookup of the name server's address, of type `A` and
/// from the root, before the current one. An alias replaces the current
/// lookup by one of the alias, of the same type and from the root. Glue,
/// referrals and aliases are counted together, and the resolution fails at
/// the one after `MAX_HOPS`. A failure ends the resolution. A response of
/// any kind ends the count of unanswered sendings.
pub open spec fn spec_step(state: ResolverView, decision: DecisionView) -> (ResolverView, Step) {
    if state.pending.len() == 0 {
        (state, Step::Failed(ResolveError::Finished))
    } else {
        let current = state.pending.last();
        let waiting = state.pending.drop_last();
        match decision {
            DecisionView::Answer(addr) => {
                if waiting.len() == 0 {
                    (spec_ended(state.hops), Step::Resolved(addr))
                } else {
                    (
                        ResolverView {
                            pending: waiting.drop_last().push(
                                LookupView { nameserver: addr, ..waiting.last() },
                            ),
                            hops: state.hops,
                            attempts: 0,
                        },
                        Step::Continue,
                    )
                }
            },
            DecisionView::Glue(addr) => {
                if state.hops >= MAX_HOPS {
                    (spec_ended(state.hops), Step::Failed(ResolveError::TooManyHops))
                } else {
                    (
                        ResolverView {
                            pending: waiting.push(LookupView { nameserver: addr, ..current }),
                            hops: state.hops + 1,
                            attempts: 0,
                        },
                        Step::Continue,
                    )
                }
            },
            DecisionView::Referral(name) => {
                if state.hops >= MAX_HOPS {
                    (spec_ended(state.hops), Step::Failed(ResolveError::TooManyHops))
                } else {
                    (
                        ResolverView {
                            pending: state.pending.push(spec_lookup(name, QType::A)),
                            hops: state.hops + 1,
                            attempts: 0,
                        },
                        Step::Continue,
                    )
                }
            },
            DecisionView::Alias(name) => {
                if state.hops >= MAX_HOPS {
                    (spec_ended(state.hops), Step::Failed(ResolveError::TooManyHops))
                } else {
                    (
                        ResolverView {
                            pending: waiting.push(spec_lookup(name, current.qtype)),
                            hops: state.hops + 1,
                            attempts: 0,
                        },
                        Step::Continue,
                    )
                }
            },
            DecisionView::NoUsableAnswer => (
                spec_ended(state.hops),
                Step::Failed(ResolveError::NoUsableAnswer),
            ),
        }
    }
}

impl Resolver {
    /// The resolution of `domain_name` for an address of type
    /// `record_type`: one lookup, at the root.
    pub fn new(domain_name: &str, record_type: QType) -> (r: Self)
        ensures
            r@.hops == 0,
            r@.attempts == 0,
            r@.pending == seq![
                spec_lookup(crate::dname::split_dots(encode_utf8(domain_name@)), record_type),
            ],
    {
        let lookup = Lookup {
            name: DomainName::new(domain_name),
            qtype: record_type,
            nameserver: root_hint(),
        };
        let r = Resolver { pending: vec![lookup], hops: 0, attempts: 0 };
        assert(r@.pending =~= seq![
            spec_lookup(crate::dname::split_dots(encode_utf8(domain_name@)), record_type),
        ]);
        r
    }

    /// Whether the resolution has ended.
    pub fn is_finished(&self) -> (b: bool)
        ensures
            b == (self@.pending.len() == 0),
    {
        self.pending.len() == 0
    }

    /// The server that the next query goes to, while the resolution has not
    /// ended.
    pub fn nameserver(&self) -> (r: Option<IpAddress>)
        ensures
            self@.pending.len() == 0 ==> r.is_none(),
            self@.pending.len() > 0 ==> r == Some(self@.pending.last().nameserver),
    {
        let n = self.pending.len();
        if n == 0 {
            None
        } else {
            Some(self.pending[n - 1].nameserver)
        }
    }

    /// The next query, while the resolution has not ended: a question for
    /// the current lookup under a fresh random id, with no flag set, so that
    /// the server does not recurse.
    pub fn next_query(&self) -> (r: Option<Message>)
        ensures
            self@.pending.len() == 0 ==> r.is_none(),
            self@.pending.len() > 0 ==> r.is_some() && r.unwrap().header
                == crate::header::Header::spec_new(
                r.unwrap().header.id,
                crate::header::HeaderFlags::spec_default(),
            ) && r.unwrap()@.questions == seq![
                crate::question::QuestionView {
                    qname: self@.pending.last().name,
                    qtype: self@.pending.last().qtype,
                    qclass: crate::qclass::QClass::IN,
                },
            ] && r.unwrap()@.answers.len() == 0 && r.unwrap()@.authorities.len() == 0
                && r.unwrap()@.additionals.len() == 0,
    {
        let n = self.pending.len();
        if n == 0 {
            None
        } else {
            let current = &self.pending[n - 1];
            Some(Message::query_for(current.name.duplicate(), current.qtype, false, false))
        }
    }

    /// Takes the response to the query of the current lookup, moves to the
    /// next state and says what to do.
    pub fn on_response(&mut self, response: &Message) -> (step: Step)
        ensures
            old(self)@.pending.len() == 0 ==> step == Step::Failed(ResolveError::Finished)
                && final(self)@ == old(self)@,
            old(self)@.pending.len() > 0 ==> (final(self)@, step) == spec_step(
                old(self)@,
                spec_decide(old(self)@.pending.last().qtype, response@),
            ),
    {
        let n = self.pending.len();
        if n == 0 {
            return Step::Failed(ResolveError::Finished);
        }
        let decision = decide(self.pending[n - 1].qtype, response);
        self.apply(decision)
    }

    /// Takes a datagram that came in while the query under the id
    /// `query_id` was out, moves to the next state and says what to do:
    /// `None` where the datagram is to be passed over.
    pub fn on_datagram(&mut self, query_id: u16, datagram: &[u8]) -> (r: Option<Step>)
        ensures
            (final(self)@, r) == spec_receive(old(self)@, query_id, datagram@),
    {
        if self.pending.len() == 0 {
            return Some(Step::Failed(ResolveError::Finished));
        }
        let mut cursor = Cursor::new(datagram);
        match Message::from_bytes(&mut cursor) {
            Err(e) => {
                self.pending.clear();
                self.attempts = 0;
                assert(self@.pending =~= Seq::<LookupView>::empty());
                Some(Step::Failed(ResolveError::Decode(e)))
            },
            Ok(response) => {
                if !response.header.flags.query_response || response.header.id != query_id {
                    None
                } else {
                    Some(self.on_response(&response))
                }
            },
        }
    }

    /// Takes note that the current query went unanswered, moves to the next
    /// state and says what to do.
    pub fn on_timeout(&mut self) -> (step: Step)
        ensures
            (final(self)@, step) == spec_timeout(old(self)@),
    {
        if self.pending.len() == 0 {
            Step::Failed(ResolveError::Finished)
        } else if self.attempts >= MAX_ATTEMPTS - 1 {
            self.pending.clear();
            self.attempts = 0;
            assert(self@.pending =~= Seq::<LookupView>::empty());
            Step::Failed(ResolveError::TimedOut)
        } else {
            self.attempts = self.attempts + 1;
            Step::Continue
        }
    }

    /// Moves to the state after `decision` and says what to do.
    pub fn apply(&mut self, decision: Decision) -> (step: Step)
        ensures
            (final(self)@, step) == spec_step(old(self)@, decision@),
    {
        let ghost before = self@.pending;
        let mut current = match self.pending.pop() {
            Some(current) => current,
            None => {
                assert(self@.pending =~= before);
                return Step::Failed(ResolveError::Finished);
            },
        };
        assert(self@.pending =~= before.drop_last());
        assert(current@ == before.last());
        self.attempts = 0;
        match decision {
            Decision::Answer(addr) => {
                match self.pending.pop() {
                    None => {
                        assert(self@.pending =~= Seq::<LookupView>::empty());
                        Step::Resolved(addr)
                    },
                    Some(waiting) => {
                        let mut waiting = waiting;
                        waiting.nameserver = addr;
                        self.pending.push(waiting);
                        assert(self@.pending =~= before.drop_last().drop_last().push(
                            LookupView { nameserver: addr, ..before.drop_last().last() },
                        ));
                        Step::Continue
                    },
                }
            },
            Decision::Glue(addr) => {
                if self.hops >= MAX_HOPS {
                    self.pending.clear();
                    assert(self@.pending =~= Seq::<LookupView>::empty());
                    Step::Failed(ResolveError::TooManyHops)
                } else {
                    current.nameserver = addr;
                    self.pending.push(current);
                    self.hops = self.hops + 1;
                    assert(self@.pending =~= before.drop_last().push(
                        LookupView { nameserver: addr, ..before.last() },
                    ));
                    Step::Continue
                }
            },
            Decision::Referral(name) => {
                if self.hops >= MAX_HOPS {
                    self.pending.clear();
                    assert(self@.pending =~= Seq::<LookupView>::empty());
                    Step::Failed(ResolveError::TooManyHops)
                } else {
                    self.pending.push(current);
                    self.pending.push(
                        Lookup { name, qtype: QType::A, nameserver: root_hint() },
                    );
                    self.hops = self.hops + 1;
                    assert(self@.pending =~= before.push(spec_lookup(name@, QType::A)));
                    Step::Continue
                }
            },
            Decision::Alias(name) => {
                if self.hops >= MAX_HOPS {
                    self.pending.clear();
                    assert(self@.pending =~= Seq::<LookupView>::empty());
                    Step::Failed(ResolveError::TooManyHops)
                } else {
                    let qtype = current.qtype;
                    self.pending.push(Lookup { name, qtype, nameserver: root_hint() });
                    self.hops = self.hops + 1;
                    assert(self@.pending =~= before.drop_last().push(spec_lookup(name@, qtype)));
                    Step::Continue
                }
            },
            Decision::NoUsableAnswer => {
                self.pending.clear();
                assert(self@.pending =~= Seq::<LookupView>::empty());
                Step::Failed(ResolveError::NoUsableAnswer)
            },
        }
    }
}

/// An answer for the only lookup under way is the result, and the
/// resolution ends.
pub proof fn lemma_answer_resolves(state: ResolverView, addr: IpAddress)
    requires
        state.pending.len() == 1,
    ensures
        spec_step(state, DecisionView::Answer(addr)) == (
            spec_ended(state.hops),
            Step::Resolved(addr),
        ),
{
}

/// Glue sends the current lookup to another server and ends nothing: below
/// the cap on hops the resolution goes on with the same name and type, at
/// the address that the glue gave.
pub proof fn lemma_glue_switches_server(state: ResolverView, addr: IpAddress)
    requires
        state.pending.len() > 0,
        state.hops < MAX_HOPS,
    ensures
        spec_step(state, DecisionView::Glue(addr)).1 == Step::Continue,
        spec_step(state, DecisionView::Glue(addr)).0.pending.len() == state.pending.len(),
        spec_step(state, DecisionView::Glue(addr)).0.pending.last() == (LookupView {
            nameserver: addr,
            ..state.pending.last()
        }),
        spec_step(state, DecisionView::Glue(addr)).0.pending.drop_last()
            == state.pending.drop_last(),
{
}

/// An alias starts the lookup over: below the cap on hops the current lookup
/// becomes the one that a fresh resolution of the alias for the same type
/// begins with, at the root. The lookups that wait stay, and the hop is
/// counted.
pub proof fn lemma_alias_restarts(state: ResolverView, alias: Seq<Seq<u8>>)
    requires
        state.pending.len() > 0,
        state.hops < MAX_HOPS,
    ensures
        spec_step(state, DecisionView::Alias(alias)).1 == Step::Continue,
        spec_step(state, DecisionView::Alias(alias)).0.pending == state.pending.drop_last().push(
            spec_lookup(alias, state.pending.last().qtype),
        ),
        spec_step(state, DecisionView::Alias(alias)).0.hops == state.hops + 1,
{
}

/// A referral without glue looks the name server up first: below the cap on
/// hops a lookup of the server's name, of type `A` and at the root, comes to
/// stand before the current one, which waits unchanged. When that lookup is
/// answered, the one that waited goes on, with the answer as its server.
pub proof fn lemma_referral_nests(state: ResolverView, server: Seq<Seq<u8>>, addr: IpAddress)
    requires
        state.pending.len() > 0,
        state.hops < MAX_HOPS,
    ensures
        spec_step(state, DecisionView::Referral(server)).1 == Step::Continue,
        spec_step(state, DecisionView::Referral(server)).0.pending == state.pending.push(
            spec_lookup(server, QType::A),
        ),
        spec_step(
            spec_step(state, DecisionView::Referral(server)).0,
            DecisionView::Answer(addr),
        ).1 == Step::Continue,
        spec_step(
            spec_step(state, DecisionView::Referral(server)).0,
            DecisionView::Answer(addr),
        ).0.pending == state.pending.drop_last().push(
            LookupView { nameserver: addr, ..state.pending.last() },
        ),
{
    let nested = spec_step(state, DecisionView::Referral(server)).0;
    assert(nested.pending.drop_last() =~= state.pending);
}

/// A response that offers a lookup neither an answer nor glue, and that
/// names a server among its authorities, is a referral to that server,
/// whatever the type of the lookup: below the cap on hops a lookup of the
/// server's name, of type `A` and at the root, comes to stand before the
/// current one.
pub proof fn lemma_glueless_referral_nests(
    state: ResolverView,
    response: MessageView,
    server: RecordView,
)
    requires
        state.pending.len() > 0,
        state.hops < MAX_HOPS,
        spec_offered(response.answers, state.pending.last().qtype).is_none(),
        spec_offered(response.additionals, state.pending.last().qtype).is_none(),
        spec_first_of_type(response.authorities, QType::NS) == Some(server),
    ensures
        spec_decide(state.pending.last().qtype, response) == DecisionView::Referral(
            crate::dname::split_dots(server.rdata),
        ),
        spec_step(state, spec_decide(state.pending.last().qtype, response)) == (
            ResolverView {
                pending: state.pending.push(
                    spec_lookup(crate::dname::split_dots(server.rdata), QType::A),
                ),
                hops: state.hops + 1,
                attempts: 0,
            },
            Step::Continue,
        ),
{
}

/// An alias is followed whatever the type of the lookup, where the response
/// offers neither an answer nor glue and names no server: for a lookup of
/// aliases themselves too.
pub proof fn lemma_alias_decides(target: QType, response: MessageView, alias: RecordView)
    requires
        spec_offered(response.answers, target).is_none(),
        spec_offered(response.additionals, target).is_none(),
        spec_first_of_type(response.authorities, QType::NS).is_none(),
        spec_first_of_type(response.answers, QType::CNAME) == Some(alias),
    ensures
        spec_decide(target, response) == DecisionView::Alias(
            crate::dname::split_dots(alias.rdata),
        ),
{
}

/// No section offers an address to a lookup of a type other than `A` and
/// `AAAA`: for such a lookup only referrals and aliases decide.
pub proof fn lemma_only_addresses_are_offered(records: Seq<RecordView>, target: QType)
    requires
        target != QType::A,
        target != QType::AAAA,
    ensures
        spec_offered(records, target).is_none(),
    decreases records.len(),
{
    if records.len() > 0 && records[0].qtype != target {
        lemma_only_addresses_are_offered(records.drop_first(), target);
    }
}

/// What is left of a resolution: two for each time that it may still be
/// sent elsewhere, and one for each lookup under way.
pub open spec fn spec_measure(state: ResolverView) -> int {
    2 * (MAX_HOPS - state.hops) + state.pending.len()
}

/// The count of hops never passes `MAX_HOPS`, and every response that does
/// not end the resolution leaves less of it: a resolution takes no more
/// than `2 * MAX_HOPS + 1` responses, whatever the servers send.
pub proof fn lemma_step_decreases(state: ResolverView, decision: DecisionView)
    requires
        0 <= state.hops <= MAX_HOPS,
    ensures
        state.hops <= spec_step(state, decision).0.hops <= MAX_HOPS,
        spec_step(state, decision).1 == Step::Continue ==> 0 <= spec_measure(
            spec_step(state, decision).0,
        ) < spec_measure(state),
        spec_step(state, decision).1 != Step::Continue ==> spec_step(
            state,
            decision,
        ).0.pending.len() == 0,
{
}

/// A query that goes unanswered is sent again fewer than `MAX_ATTEMPTS`
/// times: each time the count of attempts grows, and it never reaches
/// `MAX_ATTEMPTS`.
pub proof fn lemma_timeout_counts(state: ResolverView)
    requires
        0 <= state.attempts < MAX_ATTEMPTS,
    ensures
        spec_timeout(state).1 == Step::Continue ==> spec_timeout(state).0.attempts
            == state.attempts + 1 && spec_timeout(state).0.attempts < MAX_ATTEMPTS
            && spec_timeout(state).0.pending == state.pending && spec_timeout(state).0.hops
            == state.hops,
        spec_timeout(state).1 != Step::Continue ==> spec_timeout(state).0.pending.len() == 0,
{
}

} // verus!

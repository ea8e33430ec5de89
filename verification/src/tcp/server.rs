//! The frontend's end of request streams.

use crate::instances::{EndpointInstanceId, InstanceKey, InstanceTable};
use crate::keyed_table;
use crate::keyed_table::KeyedTable;
use crate::network::{ControlMessage, StreamType};
use crate::quic::connection;
use crate::quic::connection::{format_id, random_id};
use crate::seqs;
use crate::tcp::client;
use crate::tcp::info::{CallHomeHandshake, TcpStreamConnectionInfo};
use crate::tcp::subjects::{Subject, SubjectSet};
use crate::text;
use vstd::prelude::*;

verus! {

/// How long a removed instance refuses new streams, in nanoseconds.
pub const TOMBSTONE_TTL: u64 = 5_000_000_000;

/// Where a server listens.
#[derive(Debug)]
pub struct ServerOptions {
    /// The port, or zero for any.
    pub port: u16,
    /// The network interface, or `None` for the default one.
    pub interface: Option<String>,
}

impl Clone for ServerOptions {
    fn clone(&self) -> (r: Self)
        ensures
            r.port == self.port,
            seqs::text(r.interface) == seqs::text(self.interface),
    {
        ServerOptions { port: self.port, interface: text::copy_optional(&self.interface) }
    }
}

impl Default for ServerOptions {
    fn default() -> (r: Self)
        ensures
            r.port == 0,
            r.interface is None,
    {
        ServerOptions { port: 0, interface: None }
    }
}

/// Collects server options, those that are not set being the default.
#[derive(Debug)]
pub struct ServerOptionsBuilder {
    pub port: Option<u16>,
    pub interface: Option<Option<String>>,
}

impl Clone for ServerOptionsBuilder {
    fn clone(&self) -> (r: Self)
        ensures
            r.port == self.port,
            r.interface is Some <==> self.interface is Some,
            r.interface is Some ==> seqs::text(r.interface->0) == seqs::text(self.interface->0),
    {
        ServerOptionsBuilder {
            port: self.port,
            interface: match &self.interface {
                Some(interface) => Some(text::copy_optional(interface)),
                None => None,
            },
        }
    }
}

impl Default for ServerOptionsBuilder {
    fn default() -> (r: Self)
        ensures
            r.port is None,
            r.interface is None,
    {
        ServerOptionsBuilder { port: None, interface: None }
    }
}

impl ServerOptions {
    pub fn builder() -> (r: ServerOptionsBuilder)
        ensures
            r.port is None,
            r.interface is None,
    {
        ServerOptionsBuilder::default()
    }
}

impl ServerOptionsBuilder {
    pub fn port(self, port: u16) -> (r: Self)
        ensures
            r.port == Some(port),
            r.interface == self.interface,
    {
        ServerOptionsBuilder { port: Some(port), interface: self.interface }
    }

    pub fn interface(self, interface: Option<String>) -> (r: Self)
        ensures
            r.port == self.port,
            r.interface == Some(interface),
    {
        ServerOptionsBuilder { port: self.port, interface: Some(interface) }
    }

    pub fn build(self) -> (r: ServerOptions)
        ensures
            r.port == match self.port {
                Some(port) => port,
                None => 0,
            },
            r.interface == match self.interface {
                Some(interface) => interface,
                None => None,
            },
    {
        ServerOptions {
            port: match self.port {
                Some(port) => port,
                None => 0,
            },
            interface: match self.interface {
                Some(interface) => interface,
                None => None,
            },
        }
    }
}

/// What looking for a local address came to.
#[derive(Debug)]
pub enum LocalAddress<A> {
    Found(A),
    NotFound,
    Failed,
}

/// The address to listen on where no interface is named: the IPv4 address, or
/// for want of one the IPv6 address, or for want of any the loopback address.
/// `None` if looking failed.
pub fn choose_local_address<A>(v4: LocalAddress<A>, v6: LocalAddress<A>, loopback: A) -> (r: Option<
    A,
>)
    ensures
        r == match v4 {
            LocalAddress::Found(address) => Some(address),
            LocalAddress::Failed => None,
            LocalAddress::NotFound => match v6 {
                LocalAddress::Found(address) => Some(address),
                LocalAddress::NotFound => Some(loopback),
                LocalAddress::Failed => None,
            },
        },
{
    match v4 {
        LocalAddress::Found(address) => Some(address),
        LocalAddress::Failed => None,
        LocalAddress::NotFound => match v6 {
            LocalAddress::Found(address) => Some(address),
            LocalAddress::NotFound => Some(loopback),
            LocalAddress::Failed => None,
        },
    }
}

/// Whether the interface at `at` has the name and none behind it has.
pub open spec fn is_last_named<A>(interfaces: Seq<(String, A)>, name: Seq<char>, at: int) -> bool {
    &&& 0 <= at < interfaces.len()
    &&& interfaces[at].0@ == name
    &&& forall|i: int| at < i < interfaces.len() ==> (#[trigger] interfaces[i]).0@ != name
}

/// The address of a named interface. An interface that is listed more than once
/// has the address that is listed last.
pub fn choose_interface<A: Copy>(interfaces: &[(String, A)], name: &str) -> (r: Option<A>)
    ensures
        match r {
            Some(address) => exists|at: int| #[trigger]
                is_last_named(interfaces@, name@, at) && interfaces@[at].1 == address,
            None => forall|i: int|
                0 <= i < interfaces@.len() ==> (#[trigger] interfaces@[i]).0@ != name@,
        },
{
    let mut i: usize = interfaces.len();
    while i > 0
        invariant
            i <= interfaces@.len(),
            forall|j: int|
                i <= j < interfaces@.len() ==> (#[trigger] interfaces@[j]).0@ != name@,
        decreases i,
    {
        i -= 1;
        if text::same_text(interfaces[i].0.as_str(), name) {
            assert(is_last_named(interfaces@, name@, i as int));
            return Some(interfaces[i].1);
        }
    }
    None
}

/// A stream that was asked for and whose worker has not called back.
///
/// `handle` is whatever the caller needs to hand the stream over.
pub struct RequestedSendConnection<H> {
    pub handle: H,
    pub send_buffer_count: usize,
}

/// The requested streams.
#[verifier::reject_recursive_types(H)]
pub struct State<H> {
    pending: KeyedTable<Subject, RequestedSendConnection<H>>,
    subject_instance: KeyedTable<Subject, EndpointInstanceId>,
    instance_subjects: InstanceTable<SubjectSet>,
    removed_instances: InstanceTable<u64>,
}

/// The requested streams as mathematical maps.
#[verifier::ext_equal]
pub struct TcpModel<H> {
    pub pending: Map<Seq<char>, RequestedSendConnection<H>>,
    pub subject_instance: Map<Seq<char>, InstanceKey>,
    pub instance_subjects: Map<InstanceKey, Set<Seq<char>>>,
    pub removed_instances: Map<InstanceKey, u64>,
}

/// The subjects of cancelled streams.
pub open spec fn subjects_in<H>(streams: Seq<(String, Option<RequestedSendConnection<H>>)>) -> Seq<
    Seq<char>,
> {
    streams.map_values(|stream: (String, Option<RequestedSendConnection<H>>)| stream.0@)
}

/// `subjects` without those in `gone` that belong to `instance`.
pub open spec fn kept_subjects(
    subjects: Set<Seq<char>>,
    gone: Set<Seq<char>>,
    owner: Map<Seq<char>, InstanceKey>,
    instance: InstanceKey,
) -> Set<Seq<char>> {
    subjects.difference(
        Set::new(
            |subject: Seq<char>|
                gone.contains(subject) && owner.contains_key(subject) && owner[subject]
                    == instance,
        ),
    )
}

impl<H> TcpModel<H> {
    pub open spec fn empty() -> Self {
        TcpModel {
            pending: Map::empty(),
            subject_instance: Map::empty(),
            instance_subjects: Map::empty(),
            removed_instances: Map::empty(),
        }
    }

    /// Every association is listed under its instance, and no instance is
    /// listed without subjects.
    pub open spec fn wf(self) -> bool {
        &&& forall|subject: Seq<char>| #[trigger]
            self.subject_instance.contains_key(subject) ==> {
                let instance = self.subject_instance[subject];
                &&& self.instance_subjects.contains_key(instance)
                &&& self.instance_subjects[instance].contains(subject)
            }
        &&& self.no_empty_lists()
    }

    pub open spec fn no_empty_lists(self) -> bool {
        forall|instance: InstanceKey| #[trigger]
            self.instance_subjects.contains_key(instance) ==> self.instance_subjects[instance]
                != Set::<Seq<char>>::empty()
    }

    pub open spec fn requested(self, subject: Seq<char>, request: RequestedSendConnection<H>) -> Self {
        TcpModel { pending: self.pending.insert(subject, request), ..self }
    }

    /// The subjects in `gone` are forgotten.
    pub open spec fn without(self, gone: Set<Seq<char>>) -> Self {
        TcpModel {
            pending: self.pending.remove_keys(gone),
            subject_instance: self.subject_instance.remove_keys(gone),
            instance_subjects: Map::new(
                |instance: InstanceKey|
                    self.instance_subjects.contains_key(instance) && kept_subjects(
                        self.instance_subjects[instance],
                        gone,
                        self.subject_instance,
                        instance,
                    ) != Set::<Seq<char>>::empty(),
                |instance: InstanceKey|
                    kept_subjects(
                        self.instance_subjects[instance],
                        gone,
                        self.subject_instance,
                        instance,
                    ),
            ),
            ..self
        }
    }

    pub open spec fn subjects_of(self, instance: InstanceKey) -> Set<Seq<char>> {
        if self.instance_subjects.contains_key(instance) {
            self.instance_subjects[instance]
        } else {
            Set::empty()
        }
    }

    pub open spec fn associated(self, subject: Seq<char>, instance: InstanceKey) -> Self {
        TcpModel {
            subject_instance: self.subject_instance.insert(subject, instance),
            instance_subjects: self.instance_subjects.insert(
                instance,
                self.subjects_of(instance).insert(subject),
            ),
            ..self
        }
    }

    /// The instances that are still remembered as removed at `now`.
    pub open spec fn pruned(self, now: u64) -> Self {
        TcpModel {
            removed_instances: keyed_table::fresh(self.removed_instances, now, TOMBSTONE_TTL),
            ..self
        }
    }

    /// Whether `instance` was removed so recently that it takes no streams.
    pub open spec fn is_tombstoned(self, instance: InstanceKey, now: u64) -> bool {
        self.removed_instances.contains_key(instance) && keyed_table::is_fresh(
            self.removed_instances[instance],
            now,
            TOMBSTONE_TTL,
        )
    }

    pub open spec fn tombstoned(self, instance: InstanceKey, now: u64) -> Self {
        TcpModel {
            removed_instances: self.pruned(now).removed_instances.insert(instance, now),
            instance_subjects: self.instance_subjects.remove(instance),
            ..self
        }
    }

    /// `instance` is removed at `now`, with every stream it was to serve.
    pub open spec fn cancelled(self, instance: InstanceKey, now: u64) -> Self {
        self.tombstoned(instance, now).without(self.subjects_of(instance))
    }
}

/// Removing more subjects later is removing them all at once.
pub proof fn removals_combine<H>(m: TcpModel<H>, gone: Set<Seq<char>>, more: Set<Seq<char>>)
    ensures
        m.without(gone).without(more) == m.without(gone.union(more)),
{
    let first = m.without(gone);
    let second = first.without(more);
    let both = m.without(gone.union(more));
    let owner = m.subject_instance;
    assert forall|instance: InstanceKey| #[trigger] second.instance_subjects.contains_key(
        instance,
    ) == both.instance_subjects.contains_key(instance) && (second.instance_subjects.contains_key(
        instance,
    ) ==> second.instance_subjects[instance] == both.instance_subjects[instance]) by {
        let list = m.instance_subjects[instance];
        let once = kept_subjects(list, gone, owner, instance);
        let twice = kept_subjects(once, more, first.subject_instance, instance);
        let all = kept_subjects(list, gone.union(more), owner, instance);
        assert(twice =~= all);
        if once == Set::<Seq<char>>::empty() {
            assert(twice =~= Set::<Seq<char>>::empty());
        }
    }
    assert(second.pending =~= both.pending);
    assert(second.subject_instance =~= both.subject_instance);
    assert(second.instance_subjects =~= both.instance_subjects);
}

/// Removing subjects keeps the table sound.
pub proof fn removal_keeps_table<H>(m: TcpModel<H>, gone: Set<Seq<char>>)
    requires
        m.wf(),
    ensures
        m.without(gone).wf(),
{
    let after = m.without(gone);
    assert forall|subject: Seq<char>| #[trigger]
        after.subject_instance.contains_key(subject) implies {
        let instance = after.subject_instance[subject];
        &&& after.instance_subjects.contains_key(instance)
        &&& after.instance_subjects[instance].contains(subject)
    } by {
        assert(m.subject_instance.contains_key(subject));
        let instance = m.subject_instance[subject];
        let kept = kept_subjects(
            m.instance_subjects[instance],
            gone,
            m.subject_instance,
            instance,
        );
        assert(kept.contains(subject));
        assert(kept != Set::<Seq<char>>::empty());
    }
}

proof fn lemma_nothing_removed<H>(m: TcpModel<H>)
    requires
        m.no_empty_lists(),
    ensures
        m.without(Set::empty()) == m,
{
    let after = m.without(Set::empty());
    assert forall|instance: InstanceKey| #[trigger]
        m.instance_subjects.contains_key(instance) implies kept_subjects(
        m.instance_subjects[instance],
        Set::empty(),
        m.subject_instance,
        instance,
    ) == m.instance_subjects[instance] by {
        assert(kept_subjects(
            m.instance_subjects[instance],
            Set::empty(),
            m.subject_instance,
            instance,
        ) =~= m.instance_subjects[instance]);
    }
    assert(after.pending =~= m.pending);
    assert(after.subject_instance =~= m.subject_instance);
    assert(after.instance_subjects =~= m.instance_subjects);
}

/// Removing an instance keeps the table sound.
pub proof fn cancellation_keeps_table<H>(m: TcpModel<H>, instance: InstanceKey, now: u64)
    requires
        m.wf(),
    ensures
        m.cancelled(instance, now).wf(),
{
    let gone = m.subjects_of(instance);
    let start = m.tombstoned(instance, now);
    let after = m.cancelled(instance, now);
    assert forall|subject: Seq<char>| #[trigger]
        after.subject_instance.contains_key(subject) implies {
        let owner = after.subject_instance[subject];
        &&& after.instance_subjects.contains_key(owner)
        &&& after.instance_subjects[owner].contains(subject)
    } by {
        assert(m.subject_instance.contains_key(subject));
        let owner = m.subject_instance[subject];
        assert(m.instance_subjects[owner].contains(subject));
        assert(owner != instance);
        let kept = kept_subjects(
            start.instance_subjects[owner],
            gone,
            start.subject_instance,
            owner,
        );
        assert(kept.contains(subject));
        assert(kept != Set::<Seq<char>>::empty());
    }
}

/// An instance that was removed takes no streams until its mark has aged, and
/// none of the streams that it was to serve is left.
pub proof fn removed_instance_is_refused<H>(
    m: TcpModel<H>,
    instance: InstanceKey,
    now: u64,
    later: u64,
    subject: Seq<char>,
)
    requires
        now <= later,
    ensures
        m.cancelled(instance, now).is_tombstoned(instance, later) <==> later - now < TOMBSTONE_TTL,
        m.subjects_of(instance).contains(subject) ==> !m.cancelled(
            instance,
            now,
        ).pending.contains_key(subject),
{
}

impl<H> View for State<H> {
    type V = TcpModel<H>;

    closed spec fn view(&self) -> TcpModel<H> {
        TcpModel {
            pending: self.pending@,
            subject_instance: self.subject_instance@.map_values(
                |instance: EndpointInstanceId| instance@,
            ),
            instance_subjects: self.instance_subjects@.map_values(
                |subjects: SubjectSet| subjects@,
            ),
            removed_instances: self.removed_instances@,
        }
    }
}

/// Why a call from a worker is turned away.
#[derive(Clone, Copy, Debug, PartialEq, Eq, Structural)]
pub enum HandshakeError {
    /// Responses come another way.
    ResponseUnsupported,
    UnknownSubject,
}

impl<H> State<H> {
    spec fn tables_wf(&self) -> bool {
        &&& self.pending.wf()
        &&& self.subject_instance.wf()
        &&& self.instance_subjects.wf()
        &&& self.removed_instances.wf()
        &&& forall|instance: InstanceKey| #[trigger]
            self.instance_subjects@.contains_key(instance)
                ==> self.instance_subjects@[instance].wf()
        &&& self@.no_empty_lists()
    }

    /// The tables are sound and the lists agree with the associations.
    pub closed spec fn wf(&self) -> bool {
        self.tables_wf() && self@.wf()
    }

    /// Every association is listed under its instance, and no instance is listed
    /// without subjects.
    pub proof fn table_is_sound(&self)
        requires
            self.wf(),
        ensures
            self@.wf(),
    {
    }

    pub fn new() -> (r: Self)
        ensures
            r.wf(),
            r@ == TcpModel::<H>::empty(),
    {
        let r = State {
            pending: KeyedTable::new(),
            subject_instance: KeyedTable::new(),
            instance_subjects: KeyedTable::new(),
            removed_instances: KeyedTable::new(),
        };
        proof {
            assert(r@.subject_instance =~= Map::empty());
            assert(r@.instance_subjects =~= Map::empty());
        }
        r
    }

    /// Asks for a stream under `subject`.
    pub fn request(&mut self, subject: &str, handle: H, send_buffer_count: usize)
        requires
            old(self).wf(),
        ensures
            final(self).wf(),
            final(self)@ == old(self)@.requested(
                subject@,
                (RequestedSendConnection { handle, send_buffer_count }),
            ),
    {
        self.pending.insert(
            Subject::new(subject),
            RequestedSendConnection { handle, send_buffer_count },
        );
        assert(self@ == old(self)@.requested(
            subject@,
            RequestedSendConnection { handle, send_buffer_count },
        ));
    }

    fn drop_subject(&mut self, subject: &str) -> (r: Option<RequestedSendConnection<H>>)
        requires
            old(self).tables_wf(),
        ensures
            final(self).tables_wf(),
            r == old(self)@.pending.get(subject@),
            final(self)@ == old(self)@.without(set![subject@]),
    {
        let key = Subject::new(subject);
        let pending = self.pending.remove(&key);
        let owner = self.subject_instance.remove(&key);
        match owner {
            Some(instance) => {
                match self.instance_subjects.remove(&instance) {
                    Some(subjects) => {
                        let mut subjects = subjects;
                        let ghost before = subjects@;
                        subjects.remove(subject);
                        proof {
                            assert(subjects@ =~= kept_subjects(
                                before,
                                set![subject@],
                                old(self)@.subject_instance,
                                instance@,
                            ));
                        }
                        if !subjects.is_empty() {
                            self.instance_subjects.insert(instance, subjects);
                        }
                    },
                    None => {},
                }
            },
            None => {},
        }
        proof {
            let before = old(self)@;
            let after = before.without(set![subject@]);
            assert forall|instance: InstanceKey| #[trigger]
                before.instance_subjects.contains_key(instance) && !(
                before.subject_instance.contains_key(subject@)
                    && before.subject_instance[subject@] == instance) implies kept_subjects(
                before.instance_subjects[instance],
                set![subject@],
                before.subject_instance,
                instance,
            ) == before.instance_subjects[instance] by {
                assert(kept_subjects(
                    before.instance_subjects[instance],
                    set![subject@],
                    before.subject_instance,
                    instance,
                ) =~= before.instance_subjects[instance]);
            }
            assert(self@.pending =~= after.pending);
            assert(self@.subject_instance =~= after.subject_instance);
            assert forall|instance: InstanceKey| #[trigger]
                self@.instance_subjects.contains_key(instance)
                    == after.instance_subjects.contains_key(instance) by {
                assert(old(self).instance_subjects@.contains_key(instance)
                    == before.instance_subjects.contains_key(instance));
                assert(self.instance_subjects@.contains_key(instance)
                    == self@.instance_subjects.contains_key(instance));
            }
            assert forall|instance: InstanceKey| #[trigger]
                self@.instance_subjects.contains_key(instance) implies self@.instance_subjects[instance]
                == after.instance_subjects[instance] by {
                assert(before.instance_subjects.contains_key(instance));
            }
            assert(self@.instance_subjects =~= after.instance_subjects);
        }
        pending
    }

    /// Forgets a subject, and returns what was asked for under it.
    pub fn take_request(&mut self, subject: &str) -> (r: Option<RequestedSendConnection<H>>)
        requires
            old(self).wf(),
        ensures
            final(self).wf(),
            r == old(self)@.pending.get(subject@),
            final(self)@ == old(self)@.without(set![subject@]),
    {
        proof {
            removal_keeps_table(self@, set![subject@]);
        }
        self.drop_subject(subject)
    }

    /// Takes a call from a worker: the stream that it is for, with room for at
    /// least one frame.
    pub fn process_stream(&mut self, handshake: &CallHomeHandshake) -> (r: Result<
        RequestedSendConnection<H>,
        HandshakeError,
    >)
        requires
            old(self).wf(),
        ensures
            final(self).wf(),
            if handshake.stream_type != StreamType::Request {
                &&& r is Err && r->Err_0 == HandshakeError::ResponseUnsupported
                &&& final(self)@ == old(self)@
            } else {
                &&& final(self)@ == old(self)@.without(set![handshake.subject@])
                &&& match old(self)@.pending.get(handshake.subject@) {
                    None => r is Err && r->Err_0 == HandshakeError::UnknownSubject,
                    Some(request) => {
                        &&& r is Ok
                        &&& r->Ok_0.handle == request.handle
                        &&& r->Ok_0.send_buffer_count == if request.send_buffer_count == 0 {
                            1
                        } else {
                            request.send_buffer_count
                        }
                    },
                }
            },
    {
        match handshake.stream_type {
            StreamType::Request => {},
            StreamType::Response => {
                return Err(HandshakeError::ResponseUnsupported);
            },
        }
        match self.take_request(handshake.subject.as_str()) {
            None => Err(HandshakeError::UnknownSubject),
            Some(request) => {
                let send_buffer_count: usize = if request.send_buffer_count == 0 {
                    1
                } else {
                    request.send_buffer_count
                };
                Ok(RequestedSendConnection { handle: request.handle, send_buffer_count })
            },
        }
    }

    fn prune_tombstones(&mut self, now: u64)
        requires
            old(self).wf(),
        ensures
            final(self).wf(),
            final(self)@ == old(self)@.pruned(now),
    {
        self.removed_instances.prune(now, TOMBSTONE_TTL);
        assert(self@ == old(self)@.pruned(now));
    }

    /// Associates a subject with the instance that serves it, unless the
    /// instance was removed a moment ago. In that case the stream is not
    /// awaited any more, and what was asked for comes back.
    pub fn associate_request_instance(&mut self, subject: &str, id: &EndpointInstanceId, now: u64) -> (r:
        Result<(), Option<RequestedSendConnection<H>>>)
        requires
            old(self).wf(),
        ensures
            final(self).wf(),
            r is Err <==> old(self)@.is_tombstoned(id@, now),
            r is Err ==> r->Err_0 == old(self)@.pending.get(subject@) && final(self)@ == (
            TcpModel { pending: old(self)@.pending.remove(subject@), ..old(self)@.pruned(now) }),
            r is Ok ==> final(self)@ == old(self)@.pruned(now).associated(subject@, id@),
    {
        self.prune_tombstones(now);
        let ghost before = self@;
        if self.removed_instances.contains(id) {
            let removed = self.pending.remove(&Subject::new(subject));
            assert(self@ == (TcpModel { pending: before.pending.remove(subject@), ..before }));
            return Err(removed);
        }
        self.subject_instance.insert(Subject::new(subject), id.clone());
        let list = match self.instance_subjects.remove(id) {
            Some(list) => list,
            None => SubjectSet::new(),
        };
        let mut list = list;
        list.insert(subject);
        self.instance_subjects.insert(id.clone(), list);
        proof {
            let after = before.associated(subject@, id@);
            assert(self@.subject_instance =~= after.subject_instance);
            assert(list@ =~= before.subjects_of(id@).insert(subject@));
            assert(self@.instance_subjects =~= after.instance_subjects);
            assert(self@ == after);
            assert(list@.contains(subject@));
            assert forall|instance: InstanceKey| #[trigger]
                self.instance_subjects@.contains_key(
                    instance,
                ) implies self.instance_subjects@[instance].wf() by {}
            assert forall|other: Seq<char>| #[trigger]
                after.subject_instance.contains_key(other) implies {
                let owner = after.subject_instance[other];
                &&& after.instance_subjects.contains_key(owner)
                &&& after.instance_subjects[owner].contains(other)
            } by {
                if other != subject@ {
                    assert(before.subject_instance.contains_key(other));
                }
            }
            assert forall|instance: InstanceKey| #[trigger]
                after.instance_subjects.contains_key(
                    instance,
                ) implies after.instance_subjects[instance] != Set::<Seq<char>>::empty() by {
                if instance != id@ {
                    assert(before.instance_subjects.contains_key(instance));
                }
            }
        }
        Ok(())
    }

    /// Forgets every stream of an instance and refuses new ones for a while.
    /// Returns one entry for each, in no particular order.
    pub fn cancel_instance_streams(&mut self, id: &EndpointInstanceId, now: u64) -> (r: Vec<
        (String, Option<RequestedSendConnection<H>>),
    >)
        requires
            old(self).wf(),
        ensures
            final(self).wf(),
            final(self)@ == old(self)@.cancelled(id@, now),
            r@.len() == old(self)@.subjects_of(id@).len(),
            subjects_in(r@).to_set() == old(self)@.subjects_of(id@),
            subjects_in(r@).no_duplicates(),
            forall|i: int|
                #![trigger r@[i]]
                0 <= i < r@.len() ==> old(self)@.subjects_of(id@).contains(r@[i].0@) && r@[i].1
                    == old(self)@.pending.get(r@[i].0@),
    {
        self.prune_tombstones(now);
        self.removed_instances.insert(id.clone(), now);
        let list = match self.instance_subjects.remove(id) {
            Some(list) => list,
            None => SubjectSet::new(),
        };
        let ghost start = self@;
        proof {
            let before = old(self)@;
            assert(list@ =~= before.subjects_of(id@));
            assert(start.instance_subjects =~= before.instance_subjects.remove(id@));
            assert(start =~= before.tombstoned(id@, now));
            assert(self.tables_wf());
            lemma_nothing_removed(start);
        }
        let subjects = list.into_vec();
        let ghost names = seqs::texts(subjects@);
        assert(names.take(0).to_set() =~= Set::empty());
        let mut removed: Vec<(String, Option<RequestedSendConnection<H>>)> = Vec::new();
        let mut i: usize = 0;
        while i < subjects.len()
            invariant
                self.tables_wf(),
                i <= subjects@.len(),
                names == seqs::texts(subjects@),
                names.no_duplicates(),
                self@ == start.without(names.take(i as int).to_set()),
                removed@.len() == i,
                forall|j: int|
                    #![trigger removed@[j]]
                    0 <= j < i ==> removed@[j].0@ == names[j] && removed@[j].1
                        == start.pending.get(names[j]),
            decreases subjects@.len() - i,
        {
            let request = self.drop_subject(subjects[i].as_str());
            removed.push((subjects[i].clone(), request));
            proof {
                let before = names.take(i as int);
                let subject = names[i as int];
                assert(subject == subjects@[i as int]@);
                removals_combine(start, before.to_set(), set![subject]);
                assert(names.take(i + 1) =~= before.push(subject));
                seqs::lemma_push_to_set(before, subject);
                assert(!before.contains(subject)) by {
                    if before.contains(subject) {
                        let k = choose|k: int| 0 <= k < before.len() && before[k] == subject;
                        assert(names[k] == names[i as int]);
                    }
                }
            }
            i += 1;
        }
        proof {
            assert(names.take(names.len() as int) =~= names);
            assert(subjects_in(removed@) =~= names);
            cancellation_keeps_table(old(self)@, id@, now);
            assert forall|j: int| 0 <= j < removed@.len() implies old(self)@.subjects_of(
                id@,
            ).contains((#[trigger] removed@[j]).0@) by {
                assert(names.contains(names[j]));
                assert(names.to_set().contains(names[j]));
            }
        }
        removed
    }

    /// Lets an instance take streams again.
    pub fn clear_instance_tombstone(&mut self, id: &EndpointInstanceId)
        requires
            old(self).wf(),
        ensures
            final(self).wf(),
            final(self)@ == (TcpModel {
                removed_instances: old(self)@.removed_instances.remove(id@),
                ..old(self)@
            }),
    {
        self.removed_instances.remove(id);
        assert(self@ == (TcpModel {
            removed_instances: old(self)@.removed_instances.remove(id@),
            ..old(self)@
        }));
    }
}

/// A frontend that takes calls from workers.
#[verifier::reject_recursive_types(H)]
pub struct TcpStreamServer<H> {
    pub local_address: String,
    pub state: State<H>,
}

impl<H> TcpStreamServer<H> {
    pub fn new(local_address: String) -> (r: Self)
        ensures
            r.local_address == local_address,
            r.state.wf(),
            r.state@ == TcpModel::<H>::empty(),
    {
        TcpStreamServer { local_address, state: State::new() }
    }

    /// Asks for a stream for the request `context_id`, and tells where to call.
    pub fn register_request(&mut self, context_id: &str, handle: H, send_buffer_count: usize) -> (r:
        TcpStreamConnectionInfo)
        requires
            old(self).state.wf(),
        ensures
            final(self).state.wf(),
            final(self).local_address == old(self).local_address,
            final(self).state@ == old(self).state@.requested(
                r.subject@,
                (RequestedSendConnection { handle, send_buffer_count }),
            ),
            exists|id: u128| #[trigger] connection::id_text(id) == r.subject@,
            r.address@ == old(self).local_address@,
            r.context@ == context_id@,
            r.stream_type == StreamType::Request,
    {
        let id: u128 = random_id();
        let subject = format_id(id);
        self.state.request(subject.as_str(), handle, send_buffer_count);
        TcpStreamConnectionInfo {
            address: self.local_address.clone(),
            subject,
            context: context_id.to_owned(),
            stream_type: StreamType::Request,
        }
    }
}

impl<H> TcpStreamServer<H> {
    pub fn options_builder() -> (r: ServerOptionsBuilder)
        ensures
            r.port is None,
            r.interface is None,
    {
        ServerOptionsBuilder::default()
    }

    pub fn local_address(&self) -> (r: &str)
        ensures
            r@ == self.local_address@,
    {
        self.local_address.as_str()
    }

    /// Associates a subject with the instance that serves it, unless the
    /// instance was removed a moment ago. In that case the stream is not
    /// awaited any more, and what was asked for comes back.
    pub fn associate_request_instance(&mut self, subject: &str, id: &EndpointInstanceId, now: u64) -> (r:
        Result<(), Option<RequestedSendConnection<H>>>)
        requires
            old(self).state.wf(),
        ensures
            final(self).state.wf(),
            final(self).local_address == old(self).local_address,
            r is Err <==> old(self).state@.is_tombstoned(id@, now),
            r is Err ==> r->Err_0 == old(self).state@.pending.get(subject@) && final(self).state@
                == (TcpModel {
                pending: old(self).state@.pending.remove(subject@),
                ..old(self).state@.pruned(now)
            }),
            r is Ok ==> final(self).state@ == old(self).state@.pruned(now).associated(
                subject@,
                id@,
            ),
    {
        self.state.associate_request_instance(subject, id, now)
    }

    /// Forgets a subject, and returns what was asked for under it.
    pub fn cancel_send_stream(&mut self, subject: &str) -> (r: Option<RequestedSendConnection<H>>)
        requires
            old(self).state.wf(),
        ensures
            final(self).state.wf(),
            final(self).local_address == old(self).local_address,
            r == old(self).state@.pending.get(subject@),
            final(self).state@ == old(self).state@.without(set![subject@]),
    {
        self.state.take_request(subject)
    }

    /// Forgets every stream of an instance and refuses new ones for a while.
    /// Returns one entry for each, in no particular order.
    pub fn cancel_instance_streams(&mut self, id: &EndpointInstanceId, now: u64) -> (r: Vec<
        (String, Option<RequestedSendConnection<H>>),
    >)
        requires
            old(self).state.wf(),
        ensures
            final(self).state.wf(),
            final(self).local_address == old(self).local_address,
            final(self).state@ == old(self).state@.cancelled(id@, now),
            r@.len() == old(self).state@.subjects_of(id@).len(),
            subjects_in(r@).to_set() == old(self).state@.subjects_of(id@),
            subjects_in(r@).no_duplicates(),
            forall|i: int|
                #![trigger r@[i]]
                0 <= i < r@.len() ==> old(self).state@.subjects_of(id@).contains(r@[i].0@)
                    && r@[i].1 == old(self).state@.pending.get(r@[i].0@),
    {
        self.state.cancel_instance_streams(id, now)
    }

    /// Lets an instance take streams again.
    pub fn clear_instance_tombstone(&mut self, id: &EndpointInstanceId)
        requires
            old(self).state.wf(),
        ensures
            final(self).state.wf(),
            final(self).local_address == old(self).local_address,
            final(self).state@ == (TcpModel {
                removed_instances: old(self).state@.removed_instances.remove(id@),
                ..old(self).state@
            }),
    {
        self.state.clear_instance_tombstone(id)
    }
}

/// What may happen to a request stream on the frontend's end.
#[derive(Debug)]
pub enum SendEvent<F> {
    Killed,
    Stopped,
    Frame(F),
    /// There are no more frames.
    Exhausted,
    /// The worker could not be reached.
    WriteFailed,
}

/// What to do about an event.
#[derive(Debug)]
pub enum SendAction<F> {
    Write(F),
    /// Close the stream, with a last word if there is one.
    Close(Option<ControlMessage>),
}

/// What is done about an event of a request stream.
pub open spec fn send_reaction<F>(event: SendEvent<F>) -> SendAction<F> {
    match event {
        SendEvent::Killed => SendAction::Close(Some(ControlMessage::Kill)),
        SendEvent::Stopped => SendAction::Close(Some(ControlMessage::Stop)),
        SendEvent::Frame(frame) => SendAction::Write(frame),
        SendEvent::Exhausted => SendAction::Close(Some(ControlMessage::Sentinel)),
        SendEvent::WriteFailed => SendAction::Close(None),
    }
}

/// Reacts to one event of a request stream.
pub fn send_requests<F>(event: SendEvent<F>) -> (r: SendAction<F>)
    ensures
        r == match event {
            SendEvent::Killed => SendAction::Close(Some(ControlMessage::Kill)),
            SendEvent::Stopped => SendAction::Close(Some(ControlMessage::Stop)),
            SendEvent::Frame(frame) => SendAction::Write(frame),
            SendEvent::Exhausted => SendAction::Close(Some(ControlMessage::Sentinel)),
            SendEvent::WriteFailed => SendAction::Close(None),
        },
        r == send_reaction(event),
{
    match event {
        SendEvent::Killed => SendAction::Close(Some(ControlMessage::Kill)),
        SendEvent::Stopped => SendAction::Close(Some(ControlMessage::Stop)),
        SendEvent::Frame(frame) => SendAction::Write(frame),
        SendEvent::Exhausted => SendAction::Close(Some(ControlMessage::Sentinel)),
        SendEvent::WriteFailed => SendAction::Close(None),
    }
}

/// A stream that is asked for is awaited under its subject, and no other is
/// touched. Forgetting subjects forgets these and no others.
pub proof fn streams_are_awaited_by_subject<H>(
    m: TcpModel<H>,
    subject: Seq<char>,
    other: Seq<char>,
    request: RequestedSendConnection<H>,
    gone: Set<Seq<char>>,
)
    requires
        other != subject,
    ensures
        m.requested(subject, request).pending.contains_key(subject),
        m.requested(subject, request).pending[subject] == request,
        m.requested(subject, request).pending.get(other) == m.pending.get(other),
        m.requested(subject, request).subject_instance == m.subject_instance,
        m.requested(subject, request).instance_subjects == m.instance_subjects,
        m.requested(subject, request).removed_instances == m.removed_instances,
        gone.contains(subject) ==> !m.without(gone).pending.contains_key(subject) && !m.without(
            gone,
        ).subject_instance.contains_key(subject),
        !gone.contains(subject) ==> m.without(gone).pending.get(subject) == m.pending.get(subject)
            && m.without(gone).subject_instance.get(subject) == m.subject_instance.get(subject),
        m.without(gone).removed_instances == m.removed_instances,
{
}

/// An associated subject is one of its instance's. The streams themselves and
/// the subjects of other instances stay.
pub proof fn associations_are_listed<H>(
    m: TcpModel<H>,
    subject: Seq<char>,
    instance: InstanceKey,
    other: InstanceKey,
)
    requires
        other != instance,
    ensures
        ({
            let after = m.associated(subject, instance);
            &&& after.subject_instance.contains_key(subject)
            &&& after.subject_instance[subject] == instance
            &&& after.subjects_of(instance) == m.subjects_of(instance).insert(subject)
            &&& after.subjects_of(other) == m.subjects_of(other)
            &&& after.pending == m.pending
            &&& after.removed_instances == m.removed_instances
        }),
{
}

/// Removing an instance forgets its streams and no others, and marks it. Marks
/// are forgotten once they are five seconds old.
pub proof fn removed_instances_are_marked<H>(
    m: TcpModel<H>,
    instance: InstanceKey,
    other: InstanceKey,
    subject: Seq<char>,
    now: u64,
)
    requires
        other != instance,
    ensures
        ({
            let after = m.cancelled(instance, now);
            &&& after.removed_instances.contains_key(instance)
            &&& after.removed_instances[instance] == now
            &&& m.subjects_of(instance).contains(subject) ==> !after.pending.contains_key(subject)
                && !after.subject_instance.contains_key(subject)
            &&& !m.subjects_of(instance).contains(subject) ==> after.pending.get(subject)
                == m.pending.get(subject)
            &&& after.removed_instances.contains_key(other)
                <==> m.removed_instances.contains_key(other) && (now <= m.removed_instances[other]
                || now - m.removed_instances[other] < 5_000_000_000)
        }),
        m.is_tombstoned(other, now) <==> m.removed_instances.contains_key(other) && (now
            <= m.removed_instances[other] || now - m.removed_instances[other] < 5_000_000_000),
        m.pruned(now).pending == m.pending,
{
}

/// What happens to a request stream at the frontend happens to the request at the
/// worker: a request that is killed is killed there, one that is stopped is
/// stopped, and one whose frames have all been sent ends without being cancelled.
/// Frames are sent as they are, and where the worker cannot be reached nothing
/// more is said.
pub proof fn frontend_events_reach_the_worker<F>(event: SendEvent<F>, frame: F)
    ensures
        ({
            let told = client::read_reaction(
                client::ReadEvent::Control(send_reaction(event)->Close_0->0),
            );
            &&& event is Killed ==> send_reaction(event) is Close && send_reaction(event)->Close_0
                is Some && told->notice == client::Notice::Kill && told->cancelled
            &&& event is Stopped ==> send_reaction(event) is Close && send_reaction(
                event,
            )->Close_0 is Some && told->notice == client::Notice::Stop && told->cancelled
            &&& event is Exhausted ==> send_reaction(event) is Close && send_reaction(
                event,
            )->Close_0 is Some && told->notice == client::Notice::Nothing && !told->cancelled
            &&& event is WriteFailed ==> send_reaction(event) is Close && send_reaction(
                event,
            )->Close_0 is None
        }),
        send_reaction(SendEvent::Frame(frame)) == SendAction::Write(frame),
{
}

} // verus!

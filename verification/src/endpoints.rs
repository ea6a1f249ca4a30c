//! The endpoints of a destination, as its updates leave them.
use crate::address::{socket, to_socket_addr, SocketAddr, TcpAddress};
use vstd::prelude::*;
use vstd::string::*;

verus! {

/// An endpoint with the labels that its metrics have.
pub struct WeightedAddr {
    pub addr: Option<TcpAddress>,
    pub metric_labels: Vec<(String, String)>,
}

/// An update that the destination service sends.
pub enum Update {
    /// Endpoints that are there now, and labels that all of them have.
    Add { addrs: Vec<WeightedAddr>, metric_labels: Vec<(String, String)> },
    /// Endpoints that are gone.
    Remove(Vec<TcpAddress>),
    /// There are no endpoints, and no updates will follow.
    NoEndpoints,
}

/// What comes of waiting for an update.
pub enum Event {
    /// A message, which may hold an update.
    Message(Option<Update>),
    /// Nothing came in time.
    Timeout,
    /// No message will come any more.
    Closed,
}

/// What comes of waiting for a profile.
pub enum ProfileEvent<T> {
    /// A profile.
    Message(T),
    /// Nothing came in time.
    Timeout,
    /// No profile will come any more.
    Closed,
}

/// What `labels` say for `key`: the value that comes with it first.
pub open spec fn lookup(labels: Seq<(String, String)>, key: Seq<char>) -> Option<Seq<char>>
    decreases labels.len(),
{
    if labels.len() == 0 {
        None
    } else if lookup(labels.drop_last(), key) is Some {
        lookup(labels.drop_last(), key)
    } else if labels.last().0@ == key {
        Some(labels.last().1@)
    } else {
        None
    }
}

/// What `labels` say for `key`.
pub fn get_label<'a>(labels: &'a Vec<(String, String)>, key: &str) -> (value: Option<&'a String>)
    ensures
        value is Some == lookup(labels@, key@) is Some,
        value is Some ==> value->0@ == lookup(labels@, key@)->0,
{
    let name = key.to_owned();
    let mut i: usize = 0;
    while i < labels.len()
        invariant
            i <= labels.len(),
            name@ == key@,
            lookup(labels@.take(i as int), key@) is None,
        decreases labels.len() - i,
    {
        assert(labels@.take(i + 1).drop_last() =~= labels@.take(i as int));
        if labels[i].0.eq(&name) {
            proof {
                lemma_lookup_first(labels@, key@, i + 1);
            }
            return Some(&labels[i].1);
        }
        i += 1;
    }
    assert(labels@.take(i as int) =~= labels@);
    None
}

proof fn lemma_lookup_first(labels: Seq<(String, String)>, key: Seq<char>, n: int)
    requires
        0 <= n <= labels.len(),
        lookup(labels.take(n), key) is Some,
    ensures
        lookup(labels, key) == lookup(labels.take(n), key),
    decreases labels.len(),
{
    if n < labels.len() {
        assert(labels.drop_last().take(n) =~= labels.take(n));
        lemma_lookup_first(labels.drop_last(), key, n);
    } else {
        assert(labels.take(n) =~= labels);
    }
}

/// What `labels` say for every key.
pub open spec fn label_map(labels: Seq<(String, String)>) -> Map<Seq<char>, Seq<char>> {
    Map::new(
        |key: Seq<char>| lookup(labels, key) is Some,
        |key: Seq<char>| lookup(labels, key)->0,
    )
}

/// What is known of an endpoint.
pub struct EndpointView {
    pub addr: Option<TcpAddress>,
    pub labels: Map<Seq<char>, Seq<char>>,
}

impl View for WeightedAddr {
    type V = EndpointView;

    open spec fn view(&self) -> EndpointView {
        EndpointView { addr: self.addr, labels: label_map(self.metric_labels@) }
    }
}

/// `own`, and those of `shared` whose key it does not have.
fn merge_labels(own: &Vec<(String, String)>, shared: &Vec<(String, String)>) -> (merged: Vec<
    (String, String),
>)
    ensures
        label_map(merged@) == label_map(shared@).union_prefer_right(label_map(own@)),
{
    let mut merged: Vec<(String, String)> = Vec::new();
    let mut i: usize = 0;
    while i < own.len()
        invariant
            i <= own.len(),
            merged@ == own@.take(i as int),
        decreases own.len() - i,
    {
        merged.push((own[i].0.clone(), own[i].1.clone()));
        i += 1;
        assert(merged@ =~= own@.take(i as int));
    }
    assert(own@.take(i as int) =~= own@);
    let mut j: usize = 0;
    assert(shared@.take(0) =~= Seq::<(String, String)>::empty());
    while j < shared.len()
        invariant
            j <= shared.len(),
            forall|key: Seq<char>|
                #![trigger lookup(merged@, key)]
                lookup(merged@, key) == (if lookup(own@, key) is Some {
                    lookup(own@, key)
                } else {
                    lookup(shared@.take(j as int), key)
                }),
        decreases shared.len() - j,
    {
        let ghost before = merged@;
        let ghost name = shared@[j as int].0@;
        assert(shared@.take(j + 1).drop_last() =~= shared@.take(j as int));
        let known = get_label(&merged, shared[j].0.as_str());
        if known.is_none() {
            merged.push((shared[j].0.clone(), shared[j].1.clone()));
            assert(merged@.drop_last() =~= before);
        }
        j += 1;
        assert forall|key: Seq<char>|
            #![trigger lookup(merged@, key)]
            lookup(merged@, key) == (if lookup(own@, key) is Some {
                lookup(own@, key)
            } else {
                lookup(shared@.take(j as int), key)
            }) by {
            let earlier = lookup(before, key);
            assert(key == name ==> lookup(before, name) == earlier);
        }
    }
    assert(shared@.take(j as int) =~= shared@);
    assert(label_map(merged@) =~= label_map(shared@).union_prefer_right(label_map(own@)));
    merged
}

/// `known` after endpoints with `labels` in common came: of two with one address the later one
/// stays, and one without an address is passed over.
pub open spec fn added(
    known: Map<SocketAddr, EndpointView>,
    addrs: Seq<WeightedAddr>,
    labels: Map<Seq<char>, Seq<char>>,
) -> Map<SocketAddr, EndpointView>
    decreases addrs.len(),
{
    if addrs.len() == 0 {
        known
    } else {
        let before = added(known, addrs.drop_last(), labels);
        match addrs.last().addr {
            None => before,
            Some(addr) => before.insert(
                socket(addr),
                EndpointView {
                    addr: Some(addr),
                    labels: labels.union_prefer_right(label_map(addrs.last().metric_labels@)),
                },
            ),
        }
    }
}

/// Whether `addrs` name `addr`.
pub open spec fn names(addrs: Seq<TcpAddress>, addr: SocketAddr) -> bool {
    exists|i: int| 0 <= i < addrs.len() && addr == socket(#[trigger] addrs[i])
}

/// `known` after the endpoints at `addrs` went.
pub open spec fn removed(known: Map<SocketAddr, EndpointView>, addrs: Seq<TcpAddress>) -> Map<
    SocketAddr,
    EndpointView,
> {
    known.remove_keys(Set::new(|addr: SocketAddr| names(addrs, addr)))
}

proof fn lemma_removed_one_more(
    known: Map<SocketAddr, EndpointView>,
    addrs: Seq<TcpAddress>,
    n: int,
)
    requires
        0 <= n < addrs.len(),
    ensures
        removed(known, addrs.take(n + 1)) == removed(known, addrs.take(n)).remove(
            socket(addrs[n]),
        ),
{
    let now = addrs.take(n + 1);
    let then = addrs.take(n);
    assert forall|addr: SocketAddr| #[trigger]
        names(now, addr) == (names(then, addr) || addr == socket(addrs[n])) by {
        if names(now, addr) {
            let i = choose|i: int| 0 <= i < now.len() && addr == socket(#[trigger] now[i]);
            if i < n {
                assert(then[i] == now[i]);
            }
        }
        if names(then, addr) {
            let i = choose|i: int| 0 <= i < then.len() && addr == socket(#[trigger] then[i]);
            assert(now[i] == then[i]);
        }
        assert(now[n] == addrs[n]);
    }
    assert(removed(known, now) =~= removed(known, then).remove(socket(addrs[n])));
}

impl Update {
    /// Whether all addresses that the update names say which IP they have.
    pub open spec fn complete(self) -> bool {
        match self {
            Update::Add { addrs, metric_labels } => forall|i: int|
                0 <= i < addrs@.len() && (#[trigger] addrs@[i]).addr is Some
                    ==> addrs@[i].addr->0.complete(),
            Update::Remove(addrs) => forall|i: int|
                0 <= i < addrs@.len() ==> (#[trigger] addrs@[i]).complete(),
            Update::NoEndpoints => true,
        }
    }

    /// `known` after the update.
    pub open spec fn applied(self, known: Map<SocketAddr, EndpointView>) -> Map<
        SocketAddr,
        EndpointView,
    > {
        match self {
            Update::Add { addrs, metric_labels } => added(known, addrs@, label_map(metric_labels@)),
            Update::Remove(addrs) => removed(known, addrs@),
            Update::NoEndpoints => Map::empty(),
        }
    }

    /// Whether all addresses that the update names say which IP they have.
    #[verifier::loop_isolation(false)]
    pub fn is_complete(&self) -> (r: bool)
        ensures
            r == self.complete(),
    {
        match self {
            Update::Add { addrs, metric_labels } => {
                let mut i: usize = 0;
                while i < addrs.len()
                    invariant
                        i <= addrs.len(),
                        forall|j: int|
                            0 <= j < i && (#[trigger] addrs@[j]).addr is Some
                                ==> addrs@[j].addr->0.complete(),
                    decreases addrs.len() - i,
                {
                    if let Some(addr) = addrs[i].addr {
                        if !addr.is_complete() {
                            return false;
                        }
                    }
                    i += 1;
                }
                true
            },
            Update::Remove(addrs) => {
                let mut i: usize = 0;
                while i < addrs.len()
                    invariant
                        i <= addrs.len(),
                        forall|j: int| 0 <= j < i ==> (#[trigger] addrs@[j]).complete(),
                    decreases addrs.len() - i,
                {
                    if !addrs[i].is_complete() {
                        return false;
                    }
                    i += 1;
                }
                true
            },
            Update::NoEndpoints => true,
        }
    }
}

impl Event {
    /// Whether all addresses that come with it say which IP they have.
    pub open spec fn complete(self) -> bool {
        self matches Event::Message(Some(update)) ==> update.complete()
    }

    /// `known` after the event. A message without an update changes nothing.
    pub open spec fn applied(self, known: Map<SocketAddr, EndpointView>) -> Map<
        SocketAddr,
        EndpointView,
    > {
        match self {
            Event::Message(Some(update)) => update.applied(known),
            _ => known,
        }
    }

    /// Whether no other event is waited for.
    pub open spec fn is_last(self) -> bool {
        match self {
            Event::Message(None) => false,
            Event::Message(Some(update)) => update is NoEndpoints,
            Event::Timeout => true,
            Event::Closed => true,
        }
    }

    /// Whether all addresses that come with it say which IP they have.
    pub fn is_complete(&self) -> (r: bool)
        ensures
            r == self.complete(),
    {
        match self {
            Event::Message(Some(update)) => update.is_complete(),
            _ => true,
        }
    }
}

/// What is known after `events`, of which those after the last one that is waited for are not
/// heard.
pub open spec fn heard(known: Map<SocketAddr, EndpointView>, events: Seq<Event>) -> Map<
    SocketAddr,
    EndpointView,
>
    decreases events.len(),
{
    if events.len() == 0 {
        known
    } else if events[0].is_last() {
        events[0].applied(known)
    } else {
        heard(events[0].applied(known), events.drop_first())
    }
}

/// Whether every endpoint is known at its own address.
pub open spec fn own_keys(known: Map<SocketAddr, EndpointView>) -> bool {
    forall|addr: SocketAddr| #[trigger]
        known.contains_key(addr) ==> known[addr].addr is Some && socket(known[addr].addr->0) == addr
}

proof fn lemma_added_keeps_own_keys(
    known: Map<SocketAddr, EndpointView>,
    addrs: Seq<WeightedAddr>,
    labels: Map<Seq<char>, Seq<char>>,
)
    requires
        own_keys(known),
    ensures
        own_keys(added(known, addrs, labels)),
    decreases addrs.len(),
{
    if addrs.len() > 0 {
        lemma_added_keeps_own_keys(known, addrs.drop_last(), labels);
    }
}

/// Whatever events come, every endpoint is known at its own address.
pub proof fn law_endpoints_are_known_at_their_address(
    known: Map<SocketAddr, EndpointView>,
    events: Seq<Event>,
)
    requires
        own_keys(known),
    ensures
        own_keys(heard(known, events)),
    decreases events.len(),
{
    if events.len() > 0 {
        let event = events[0];
        if let Event::Message(Some(Update::Add { addrs, metric_labels })) = event {
            lemma_added_keeps_own_keys(known, addrs@, label_map(metric_labels@));
        }
        assert(own_keys(event.applied(known)));
        law_endpoints_are_known_at_their_address(event.applied(known), events.drop_first());
    }
}

/// What comes after the last event that is waited for has no say.
pub proof fn law_nothing_is_heard_after_the_last(
    known: Map<SocketAddr, EndpointView>,
    events: Seq<Event>,
    more: Seq<Event>,
)
    requires
        exists|i: int| 0 <= i < events.len() && (#[trigger] events[i]).is_last(),
    ensures
        heard(known, events + more) == heard(known, events),
    decreases events.len(),
{
    assert((events + more)[0] == events[0]);
    if !events[0].is_last() {
        let i = choose|i: int| 0 <= i < events.len() && (#[trigger] events[i]).is_last();
        assert(events.drop_first()[i - 1] == events[i]);
        law_nothing_is_heard_after_the_last(
            events[0].applied(known),
            events.drop_first(),
            more,
        );
        assert((events + more).drop_first() =~= events.drop_first() + more);
    }
}

/// What is added comes on top of what is known.
pub proof fn law_added_comes_on_top(
    known: Map<SocketAddr, EndpointView>,
    addrs: Seq<WeightedAddr>,
    labels: Map<Seq<char>, Seq<char>>,
)
    ensures
        added(known, addrs, labels) == known.union_prefer_right(
            added(Map::empty(), addrs, labels),
        ),
    decreases addrs.len(),
{
    if addrs.len() > 0 {
        law_added_comes_on_top(known, addrs.drop_last(), labels);
    }
    assert(added(known, addrs, labels) =~= known.union_prefer_right(
        added(Map::empty(), addrs, labels),
    ));
}

/// Of the endpoints that are added, the last one with an address is known at that address, with
/// its own labels and with those that all have in common where it has none of that name.
pub proof fn law_last_added_is_known(
    known: Map<SocketAddr, EndpointView>,
    addrs: Seq<WeightedAddr>,
    labels: Map<Seq<char>, Seq<char>>,
    i: int,
)
    requires
        0 <= i < addrs.len(),
        addrs[i].addr is Some,
        forall|j: int|
            i < j < addrs.len() && (#[trigger] addrs[j]).addr is Some ==> socket(addrs[j].addr->0)
                != socket(addrs[i].addr->0),
    ensures
        added(known, addrs, labels).contains_key(socket(addrs[i].addr->0)),
        added(known, addrs, labels)[socket(addrs[i].addr->0)] == (EndpointView {
            addr: addrs[i].addr,
            labels: labels.union_prefer_right(label_map(addrs[i].metric_labels@)),
        }),
    decreases addrs.len(),
{
    if i < addrs.len() - 1 {
        let before = addrs.drop_last();
        assert forall|j: int|
            i < j < before.len() && (#[trigger] before[j]).addr is Some implies socket(
            before[j].addr->0,
        ) != socket(before[i].addr->0) by {
            assert(before[j] == addrs[j]);
        }
        law_last_added_is_known(known, before, labels, i);
        assert(addrs.last() == addrs[addrs.len() - 1]);
    }
}

/// What is removed is not known any more, and nothing else is lost.
pub proof fn law_removed_is_gone(
    known: Map<SocketAddr, EndpointView>,
    addrs: Seq<TcpAddress>,
    addr: SocketAddr,
)
    ensures
        removed(known, addrs).contains_key(addr) == (known.contains_key(addr) && !names(
            addrs,
            addr,
        )),
        removed(known, addrs).contains_key(addr) ==> removed(known, addrs)[addr] == known[addr],
{
}

/// Endpoints that are added and then removed leave what was there without them.
pub proof fn law_removing_undoes_adding(
    known: Map<SocketAddr, EndpointView>,
    addrs: Seq<WeightedAddr>,
    labels: Map<Seq<char>, Seq<char>>,
    gone: Seq<TcpAddress>,
)
    requires
        forall|i: int|
            0 <= i < addrs.len() && (#[trigger] addrs[i]).addr is Some ==> names(
                gone,
                socket(addrs[i].addr->0),
            ),
    ensures
        removed(added(known, addrs, labels), gone) == removed(known, gone),
    decreases addrs.len(),
{
    if addrs.len() > 0 {
        let before = addrs.drop_last();
        assert forall|i: int|
            0 <= i < before.len() && (#[trigger] before[i]).addr is Some implies names(
            gone,
            socket(before[i].addr->0),
        ) by {
            assert(before[i] == addrs[i]);
        }
        law_removing_undoes_adding(known, before, labels, gone);
        assert(addrs[addrs.len() - 1] == addrs.last());
        assert(removed(added(known, addrs, labels), gone) =~= removed(
            added(known, before, labels),
            gone,
        ));
    }
}

/// An update that comes again changes nothing.
pub proof fn law_update_again_changes_nothing(
    update: Update,
    known: Map<SocketAddr, EndpointView>,
)
    ensures
        update.applied(update.applied(known)) == update.applied(known),
{
    if let Update::Add { addrs, metric_labels } = update {
        let labels = label_map(metric_labels@);
        law_added_comes_on_top(known, addrs@, labels);
        law_added_comes_on_top(added(known, addrs@, labels), addrs@, labels);
    }
    assert(update.applied(update.applied(known)) =~= update.applied(known));
}

/// The endpoints that the updates so far have left.
pub struct Endpoints {
    entries: Vec<(SocketAddr, WeightedAddr)>,
}

/// Whether no address comes twice.
pub open spec fn distinct_addrs(entries: Seq<(SocketAddr, WeightedAddr)>) -> bool {
    forall|i: int, j: int|
        0 <= i < j < entries.len() ==> (#[trigger] entries[i]).0 != (#[trigger] entries[j]).0
}

/// What is known of every address in `entries`.
pub open spec fn endpoint_map(entries: Seq<(SocketAddr, WeightedAddr)>) -> Map<
    SocketAddr,
    EndpointView,
> {
    Map::new(
        |addr: SocketAddr|
            exists|i: int| 0 <= i < entries.len() && (#[trigger] entries[i]).0 == addr,
        |addr: SocketAddr|
            entries[choose|i: int|
                0 <= i < entries.len() && (#[trigger] entries[i]).0 == addr].1@,
    )
}

/// The map says of each entry what the entry says.
proof fn lemma_entry_in_map(entries: Seq<(SocketAddr, WeightedAddr)>, i: int)
    requires
        distinct_addrs(entries),
        0 <= i < entries.len(),
    ensures
        endpoint_map(entries).contains_key(entries[i].0),
        endpoint_map(entries)[entries[i].0] == entries[i].1@,
{
    let addr = entries[i].0;
    let j = choose|j: int| 0 <= j < entries.len() && (#[trigger] entries[j]).0 == addr;
    assert(entries[j].0 == entries[i].0);
}

impl View for Endpoints {
    type V = Map<SocketAddr, EndpointView>;

    closed spec fn view(&self) -> Map<SocketAddr, EndpointView> {
        endpoint_map(self.entries@)
    }
}

impl Endpoints {
    /// No address comes twice, and every endpoint is known at its own.
    pub closed spec fn well_formed(self) -> bool {
        distinct_addrs(self.entries@) && own_keys(self@)
    }

    /// No endpoints.
    pub fn new() -> (endpoints: Endpoints)
        ensures
            endpoints.well_formed(),
            endpoints@ == Map::<SocketAddr, EndpointView>::empty(),
    {
        let endpoints = Endpoints { entries: Vec::new() };
        assert(endpoints@ =~= Map::<SocketAddr, EndpointView>::empty());
        endpoints
    }

    /// Where the entry for `addr` stands.
    fn position(&self, addr: &SocketAddr) -> (r: Option<usize>)
        ensures
            match r {
                Some(i) => i < self.entries@.len() && self.entries@[i as int].0 == *addr,
                None => !self@.contains_key(*addr),
            },
    {
        let mut i: usize = 0;
        while i < self.entries.len()
            invariant
                i <= self.entries.len(),
                forall|j: int| 0 <= j < i ==> (#[trigger] self.entries@[j]).0 != *addr,
            decreases self.entries.len() - i,
        {
            if self.entries[i].0 == *addr {
                return Some(i);
            }
            i += 1;
        }
        None
    }

    /// Puts `endpoint` at `addr`, in place of what was there.
    fn insert(&mut self, addr: SocketAddr, endpoint: WeightedAddr)
        requires
            old(self).well_formed(),
            endpoint.addr is Some,
            socket(endpoint.addr->0) == addr,
        ensures
            final(self).well_formed(),
            final(self)@ == old(self)@.insert(addr, endpoint@),
    {
        let ghost before = self.entries@;
        let ghost mut at: int = before.len() as int;
        match self.position(&addr) {
            Some(i) => {
                proof {
                    at = i as int;
                }
                self.entries.set(i, (addr, endpoint));
            },
            None => {
                assert forall|j: int| 0 <= j < before.len() implies (#[trigger] before[j]).0
                    != addr by {
                    assert(old(self)@.contains_key(before[j].0));
                }
                self.entries.push((addr, endpoint));
            },
        }
        let ghost after = self.entries@;
        proof {
            let expected = endpoint_map(before).insert(addr, endpoint@);
            lemma_entry_in_map(after, at);
            assert forall|a: SocketAddr| #[trigger]
                endpoint_map(after).contains_key(a) == expected.contains_key(a) && (
            expected.contains_key(a) ==> endpoint_map(after)[a] == expected[a]) by {
                if endpoint_map(after).contains_key(a) {
                    let j = choose|j: int| 0 <= j < after.len() && (#[trigger] after[j]).0 == a;
                    lemma_entry_in_map(after, j);
                    if a != addr {
                        assert(before[j] == after[j]);
                        lemma_entry_in_map(before, j);
                    }
                }
                if expected.contains_key(a) && a != addr {
                    let j = choose|j: int| 0 <= j < before.len() && (#[trigger] before[j]).0 == a;
                    assert(after[j] == before[j]);
                }
            }
            assert(endpoint_map(after) =~= expected);
        }
    }

    /// Takes away what is at `addr`.
    fn remove(&mut self, addr: &SocketAddr)
        requires
            old(self).well_formed(),
        ensures
            final(self).well_formed(),
            final(self)@ == old(self)@.remove(*addr),
    {
        let ghost before = self.entries@;
        match self.position(addr) {
            Some(i) => {
                self.entries.remove(i);
                let ghost after = self.entries@;
                proof {
                    let expected = endpoint_map(before).remove(*addr);
                    assert forall|a: SocketAddr| #[trigger]
                        endpoint_map(after).contains_key(a) == expected.contains_key(a) && (
                    expected.contains_key(a) ==> endpoint_map(after)[a] == expected[a]) by {
                        if endpoint_map(after).contains_key(a) {
                            let j = choose|j: int|
                                0 <= j < after.len() && (#[trigger] after[j]).0 == a;
                            lemma_entry_in_map(after, j);
                            let k = if j < i {
                                j
                            } else {
                                j + 1
                            };
                            assert(before[k] == after[j]);
                            lemma_entry_in_map(before, k);
                        }
                        if expected.contains_key(a) {
                            let k = choose|k: int|
                                0 <= k < before.len() && (#[trigger] before[k]).0 == a;
                            assert(k != i);
                            let j = if k < i {
                                k
                            } else {
                                k - 1
                            };
                            assert(after[j] == before[k]);
                        }
                    }
                    assert(endpoint_map(after) =~= expected);
                }
            },
            None => {
                assert(self@ =~= old(self)@.remove(*addr));
            },
        }
    }

    /// Takes an update in.
    fn update(&mut self, update: Update)
        requires
            old(self).well_formed(),
            update.complete(),
        ensures
            final(self).well_formed(),
            final(self)@ == update.applied(old(self)@),
    {
        match update {
            Update::Add { addrs, metric_labels } => {
                let mut i: usize = 0;
                assert(addrs@.take(0) =~= Seq::<WeightedAddr>::empty());
                while i < addrs.len()
                    invariant
                        i <= addrs.len(),
                        self.well_formed(),
                        forall|j: int|
                            0 <= j < addrs@.len() && (#[trigger] addrs@[j]).addr is Some
                                ==> addrs@[j].addr->0.complete(),
                        self@ == added(
                            old(self)@,
                            addrs@.take(i as int),
                            label_map(metric_labels@),
                        ),
                    decreases addrs.len() - i,
                {
                    assert(addrs@.take(i + 1).drop_last() =~= addrs@.take(i as int));
                    if let Some(addr) = addrs[i].addr {
                        let labels = merge_labels(&addrs[i].metric_labels, &metric_labels);
                        let endpoint = WeightedAddr { addr: Some(addr), metric_labels: labels };
                        self.insert(to_socket_addr(addr), endpoint);
                    }
                    i += 1;
                }
                assert(addrs@.take(i as int) =~= addrs@);
            },
            Update::Remove(addrs) => {
                let mut i: usize = 0;
                assert(removed(self@, addrs@.take(0)) =~= self@);
                while i < addrs.len()
                    invariant
                        i <= addrs.len(),
                        self.well_formed(),
                        forall|j: int| 0 <= j < addrs@.len() ==> (#[trigger] addrs@[j]).complete(),
                        self@ == removed(old(self)@, addrs@.take(i as int)),
                    decreases addrs.len() - i,
                {
                    let addr = to_socket_addr(addrs[i]);
                    self.remove(&addr);
                    proof {
                        lemma_removed_one_more(old(self)@, addrs@, i as int);
                    }
                    i += 1;
                }
                assert(addrs@.take(i as int) =~= addrs@);
            },
            Update::NoEndpoints => {
                self.entries.clear();
                assert(self@ =~= Map::<SocketAddr, EndpointView>::empty());
            },
        }
    }

    /// Takes in what came of waiting for an update, and says whether to wait for another one.
    pub fn hear(&mut self, event: Event) -> (more: bool)
        requires
            old(self).well_formed(),
            event.complete(),
        ensures
            final(self).well_formed(),
            final(self)@ == event.applied(old(self)@),
            more == !event.is_last(),
            event matches Event::Message(Some(Update::Remove(addrs))) ==> forall|addr: SocketAddr|
                #![trigger final(self)@.contains_key(addr)]
                {
                    &&& final(self)@.contains_key(addr) <==> old(self)@.contains_key(addr)
                        && forall|i: int|
                        0 <= i < addrs@.len() ==> addr != socket(#[trigger] addrs@[i])
                    &&& final(self)@.contains_key(addr) ==> final(self)@[addr] == old(self)@[addr]
                },
            event matches Event::Message(Some(Update::Add { addrs, .. })) ==> forall|i: int|
                0 <= i < addrs@.len() && (#[trigger] addrs@[i]).addr is Some
                    ==> final(self)@.contains_key(socket(addrs@[i].addr->0)),
            event matches Event::Message(Some(Update::NoEndpoints)) ==> final(self)@ == Map::<
                SocketAddr,
                EndpointView,
            >::empty(),
            !(event matches Event::Message(Some(_))) ==> final(self)@ == old(self)@,
            more == (event matches Event::Message(update) && !(update matches Some(
                Update::NoEndpoints,
            ))),
    {
        proof {
            lemma_event(event, self@);
        }
        match event {
            Event::Timeout => false,
            Event::Closed => false,
            Event::Message(None) => true,
            Event::Message(Some(update)) => {
                let more = !matches!(update, Update::NoEndpoints);
                self.update(update);
                more
            },
        }
    }

    /// The endpoints, one entry to an address.
    pub fn into_entries(self) -> (entries: Vec<(SocketAddr, WeightedAddr)>)
        requires
            self.well_formed(),
        ensures
            distinct_addrs(entries@),
            endpoint_map(entries@) == self@,
            own_keys(self@),
            forall|i: int, j: int|
                0 <= i < j < entries@.len() ==> (#[trigger] entries@[i]).0 != (
                #[trigger] entries@[j]).0,
            forall|i: int|
                0 <= i < entries@.len() ==> self@.contains_key((#[trigger] entries@[i]).0)
                    && self@[entries@[i].0] == entries@[i].1@,
            forall|addr: SocketAddr| #[trigger]
                self@.contains_key(addr) ==> exists|i: int|
                    0 <= i < entries@.len() && (#[trigger] entries@[i]).0 == addr,
    {
        proof {
            assert forall|i: int| 0 <= i < self.entries@.len() implies self@.contains_key(
                (#[trigger] self.entries@[i]).0,
            ) && self@[self.entries@[i].0] == self.entries@[i].1@ by {
                lemma_entry_in_map(self.entries@, i);
            }
        }
        self.entries
    }
}

/// `profiles` after the event: a profile that came is kept, after those that came before.
pub open spec fn profiles_after<T>(profiles: Seq<T>, event: ProfileEvent<T>) -> Seq<T> {
    match event {
        ProfileEvent::Message(profile) => profiles.push(profile),
        ProfileEvent::Timeout => profiles,
        ProfileEvent::Closed => profiles,
    }
}

/// Takes in what came of waiting for a profile, and says whether to wait for another one: only
/// after a profile.
pub fn hear_profile<T>(profiles: &mut Vec<T>, event: ProfileEvent<T>) -> (more: bool)
    ensures
        final(profiles)@ == profiles_after(old(profiles)@, event),
        more == (event is Message),
        event matches ProfileEvent::Message(profile) ==> {
            &&& final(profiles)@.len() == old(profiles)@.len() + 1
            &&& final(profiles)@.last() == profile
            &&& final(profiles)@.drop_last() == old(profiles)@
        },
        !(event is Message) ==> final(profiles)@ == old(profiles)@,
{
    match event {
        ProfileEvent::Message(profile) => {
            profiles.push(profile);
            true
        },
        ProfileEvent::Timeout => false,
        ProfileEvent::Closed => false,
    }
}

/// Labels say for a key the value that comes with it where it first stands, and nothing where it
/// stands nowhere.
pub proof fn law_first_label_counts(labels: Seq<(String, String)>, key: Seq<char>)
    ensures
        lookup(labels, key) is None <==> forall|i: int|
            0 <= i < labels.len() ==> (#[trigger] labels[i]).0@ != key,
        forall|i: int|
            0 <= i < labels.len() && (#[trigger] labels[i]).0@ == key && (forall|j: int|
                0 <= j < i ==> (#[trigger] labels[j]).0@ != key) ==> lookup(labels, key) == Some(
                labels[i].1@,
            ),
    decreases labels.len(),
{
    if labels.len() > 0 {
        let before = labels.drop_last();
        let n = before.len() as int;
        law_first_label_counts(before, key);
        assert forall|i: int|
            0 <= i < labels.len() && (#[trigger] labels[i]).0@ == key && (forall|j: int|
                0 <= j < i ==> (#[trigger] labels[j]).0@ != key) implies lookup(labels, key)
            == Some(labels[i].1@) by {
            if i < n {
                assert(before[i] == labels[i]);
                assert forall|j: int| 0 <= j < i implies (#[trigger] before[j]).0@ != key by {
                    assert(before[j] == labels[j]);
                }
            } else {
                assert forall|j: int| 0 <= j < n implies (#[trigger] before[j]).0@ != key by {
                    assert(before[j] == labels[j]);
                }
            }
        }
        if lookup(labels, key) is None {
            assert forall|i: int| 0 <= i < labels.len() implies (#[trigger] labels[i]).0@
                != key by {
                if i < n {
                    assert(before[i] == labels[i]);
                }
            }
        } else if lookup(before, key) is Some {
            let i = choose|i: int| 0 <= i < n && (#[trigger] before[i]).0@ == key;
            assert(labels[i] == before[i]);
        } else {
            assert(labels[n].0@ == key);
        }
    }
}

/// After addresses are removed, an address is known exactly where it was known and is none of
/// those, with what was known of it.
pub proof fn law_removing_forgets_every_address(
    known: Map<SocketAddr, EndpointView>,
    addrs: Vec<TcpAddress>,
    addr: SocketAddr,
)
    ensures
        ({
            let after = Event::Message(Some(Update::Remove(addrs))).applied(known);
            &&& after.contains_key(addr) <==> known.contains_key(addr) && forall|i: int|
                0 <= i < addrs@.len() ==> addr != socket(#[trigger] addrs@[i])
            &&& after.contains_key(addr) ==> after[addr] == known[addr]
        }),
{
}

/// After endpoints are added, the last one with an address is known there. It has its own labels,
/// and beyond those the ones that all of them have in common.
pub proof fn law_adding_makes_every_endpoint_known(
    known: Map<SocketAddr, EndpointView>,
    addrs: Vec<WeightedAddr>,
    metric_labels: Vec<(String, String)>,
    i: int,
    key: Seq<char>,
)
    requires
        0 <= i < addrs@.len(),
        addrs@[i].addr is Some,
        forall|j: int|
            i < j < addrs@.len() && (#[trigger] addrs@[j]).addr is Some ==> socket(
                addrs@[j].addr->0,
            ) != socket(addrs@[i].addr->0),
    ensures
        ({
            let after = Event::Message(Some(Update::Add { addrs, metric_labels })).applied(known);
            let addr = socket(addrs@[i].addr->0);
            let own = lookup(addrs@[i].metric_labels@, key);
            let common = lookup(metric_labels@, key);
            &&& after.contains_key(addr)
            &&& after[addr].addr == addrs@[i].addr
            &&& after[addr].labels.contains_key(key) <==> own is Some || common is Some
            &&& own is Some ==> after[addr].labels[key] == own->0
            &&& own is None && common is Some ==> after[addr].labels[key] == common->0
        }),
{
    law_last_added_is_known(known, addrs@, label_map(metric_labels@), i);
}

/// Adding endpoints leaves all other addresses as they were.
pub proof fn law_adding_leaves_other_addresses(
    known: Map<SocketAddr, EndpointView>,
    addrs: Vec<WeightedAddr>,
    metric_labels: Vec<(String, String)>,
    addr: SocketAddr,
)
    requires
        forall|i: int|
            0 <= i < addrs@.len() && (#[trigger] addrs@[i]).addr is Some ==> socket(
                addrs@[i].addr->0,
            ) != addr,
    ensures
        ({
            let after = Event::Message(Some(Update::Add { addrs, metric_labels })).applied(known);
            &&& after.contains_key(addr) <==> known.contains_key(addr)
            &&& known.contains_key(addr) ==> after[addr] == known[addr]
        }),
{
    lemma_added_elsewhere(known, addrs@, label_map(metric_labels@), addr);
}

proof fn lemma_event(event: Event, known: Map<SocketAddr, EndpointView>)
    ensures
        event matches Event::Message(Some(Update::Remove(addrs))) ==> forall|addr: SocketAddr|
            #![trigger event.applied(known).contains_key(addr)]
            {
                &&& event.applied(known).contains_key(addr) <==> known.contains_key(addr)
                    && forall|i: int|
                    0 <= i < addrs@.len() ==> addr != socket(#[trigger] addrs@[i])
                &&& event.applied(known).contains_key(addr) ==> event.applied(known)[addr]
                    == known[addr]
            },
        event matches Event::Message(Some(Update::Add { addrs, .. })) ==> forall|i: int|
            0 <= i < addrs@.len() && (#[trigger] addrs@[i]).addr is Some
                ==> event.applied(known).contains_key(socket(addrs@[i].addr->0)),
{
    if let Event::Message(Some(Update::Remove(addrs))) = event {
        assert forall|addr: SocketAddr|
            #![trigger event.applied(known).contains_key(addr)]
            {
                &&& event.applied(known).contains_key(addr) <==> known.contains_key(addr)
                    && forall|i: int|
                    0 <= i < addrs@.len() ==> addr != socket(#[trigger] addrs@[i])
                &&& event.applied(known).contains_key(addr) ==> event.applied(known)[addr]
                    == known[addr]
            } by {
            law_removing_forgets_every_address(known, addrs, addr);
        }
    }
    if let Event::Message(Some(Update::Add { addrs, metric_labels })) = event {
        assert forall|i: int|
            0 <= i < addrs@.len() && (#[trigger] addrs@[i]).addr is Some
            implies event.applied(known).contains_key(socket(addrs@[i].addr->0)) by {
            lemma_added_is_known(known, addrs@, label_map(metric_labels@), i);
        }
    }
}

proof fn lemma_added_is_known(
    known: Map<SocketAddr, EndpointView>,
    addrs: Seq<WeightedAddr>,
    labels: Map<Seq<char>, Seq<char>>,
    i: int,
)
    requires
        0 <= i < addrs.len(),
        addrs[i].addr is Some,
    ensures
        added(known, addrs, labels).contains_key(socket(addrs[i].addr->0)),
    decreases addrs.len(),
{
    if i < addrs.len() - 1 {
        assert(addrs.drop_last()[i] == addrs[i]);
        lemma_added_is_known(known, addrs.drop_last(), labels, i);
    }
}

proof fn lemma_added_elsewhere(
    known: Map<SocketAddr, EndpointView>,
    addrs: Seq<WeightedAddr>,
    labels: Map<Seq<char>, Seq<char>>,
    addr: SocketAddr,
)
    requires
        forall|i: int|
            0 <= i < addrs.len() && (#[trigger] addrs[i]).addr is Some ==> socket(addrs[i].addr->0)
                != addr,
    ensures
        added(known, addrs, labels).contains_key(addr) <==> known.contains_key(addr),
        known.contains_key(addr) ==> added(known, addrs, labels)[addr] == known[addr],
    decreases addrs.len(),
{
    if addrs.len() > 0 {
        let before = addrs.drop_last();
        assert forall|i: int|
            0 <= i < before.len() && (#[trigger] before[i]).addr is Some implies socket(
            before[i].addr->0,
        ) != addr by {
            assert(before[i] == addrs[i]);
        }
        assert(addrs[addrs.len() - 1] == addrs.last());
        lemma_added_elsewhere(known, before, labels, addr);
    }
}

/// Only an update changes what is known, no endpoints leave nothing, and waiting ends with
/// silence, with the stream, and where there are no endpoints.
pub proof fn law_waiting_goes_on_after_updates(event: Event, known: Map<SocketAddr, EndpointView>)
    ensures
        event is Timeout || event is Closed || event == Event::Message(None)
            ==> event.applied(known) == known,
        event == Event::Message(Some(Update::NoEndpoints)) ==> forall|addr: SocketAddr|
            !#[trigger] event.applied(known).contains_key(addr),
        event.is_last() <==> event is Timeout || event is Closed || event == Event::Message(
            Some(Update::NoEndpoints),
        ),
{
}

/// One event is heard as it comes, and events that do not end the waiting are heard before those
/// that follow.
pub proof fn law_events_are_heard_in_order(
    known: Map<SocketAddr, EndpointView>,
    events: Seq<Event>,
    more: Seq<Event>,
)
    requires
        forall|i: int| 0 <= i < events.len() ==> !(#[trigger] events[i]).is_last(),
    ensures
        events.len() == 0 ==> heard(known, events) == known,
        more.len() == 1 ==> heard(known, more) == more[0].applied(known),
        heard(known, events + more) == heard(heard(known, events), more),
    decreases events.len(),
{
    reveal_with_fuel(heard, 2);
    if events.len() > 0 {
        let rest = events.drop_first();
        assert forall|i: int| 0 <= i < rest.len() implies !(#[trigger] rest[i]).is_last() by {
            assert(rest[i] == events[i + 1]);
        }
        assert((events + more).drop_first() =~= rest + more);
        law_events_are_heard_in_order(events[0].applied(known), rest, more);
    } else {
        assert(events + more =~= more);
    }
}

/// An event can be taken in exactly where every address that it brings says which IP it has.
pub proof fn law_every_address_needs_an_ip(
    addrs: Vec<TcpAddress>,
    added: Vec<WeightedAddr>,
    metric_labels: Vec<(String, String)>,
)
    ensures
        Event::Message(Some(Update::Remove(addrs))).complete() <==> forall|i: int|
            0 <= i < addrs@.len() ==> (#[trigger] addrs@[i]).ip is Some
                && addrs@[i].ip->0.ip is Some,
        Event::Message(Some(Update::Add { addrs: added, metric_labels })).complete() <==> forall|
            i: int,
        |
            0 <= i < added@.len() && (#[trigger] added@[i]).addr is Some
                ==> added@[i].addr->0.ip is Some && added@[i].addr->0.ip->0.ip is Some,
        Event::Message(Some(Update::NoEndpoints)).complete(),
        Event::Message(None).complete(),
        Event::Timeout.complete(),
        Event::Closed.complete(),
{
    if Event::Message(Some(Update::Remove(addrs))).complete() {
        assert forall|i: int| 0 <= i < addrs@.len() implies (#[trigger] addrs@[i]).ip is Some
            && addrs@[i].ip->0.ip is Some by {
            assert(addrs@[i].complete());
        }
    }
}

} // verus!

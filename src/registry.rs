//! The connection registry: live identities, each with the send half of its
//! delivery channel, and fan-out of a payload to every member but its sender.
use vstd::prelude::*;
use vstd::set_lib::{lemma_int_range, lemma_len_subset, set_int_range};
use crate::channel::{open_channel, random_identity, Outlet, Payload, PayloadView, ReceiveHandle};

verus! {

/// One live connection: its identity and where its payloads go.
struct Member {
    id: u128,
    out: Outlet,
}

/// What a broadcast did for one recipient.
#[derive(Debug, PartialEq, Eq, Clone, Copy)]
pub struct Delivery {
    /// The recipient's identity.
    pub to: u128,
    /// Whether its channel took the payload (`false`: the receiver is gone).
    pub accepted: bool,
}

/// The set of live connections.
///
/// Its model maps each live identity to its outbox: the payloads handed to
/// that member's channel since it registered, as the channel's own record
/// (`Outlet::sent`) has them. The map is an index over those records and
/// exists only in proofs.
pub struct Registry {
    members: Vec<Member>,
    outboxes: Ghost<Map<u128, Seq<PayloadView>>>,
}

/// The identities of `ids` other than `sender`, in order.
pub open spec fn others(ids: Seq<u128>, sender: u128) -> Seq<u128>
    decreases ids.len(),
{
    if ids.len() == 0 {
        Seq::empty()
    } else if ids.last() == sender {
        others(ids.drop_last(), sender)
    } else {
        others(ids.drop_last(), sender).push(ids.last())
    }
}

/// The outboxes after `sender` broadcast `p`: every live identity but the
/// sender gains one copy of `p` at the end.
pub open spec fn after_broadcast(
    boxes: Map<u128, Seq<PayloadView>>,
    sender: u128,
    p: PayloadView,
) -> Map<u128, Seq<PayloadView>> {
    Map::new(
        |k: u128| boxes.dom().contains(k),
        |k: u128|
            if k == sender {
                boxes[k]
            } else {
                boxes[k].push(p)
            },
    )
}

impl Registry {
    /// The identities of the members, in order of registration.
    pub closed spec fn ids(&self) -> Seq<u128> {
        self.members@.map_values(|m: Member| m.id)
    }

    /// The send halves of the members' channels, in the order of `ids`.
    pub closed spec fn outlets(&self) -> Seq<Outlet> {
        self.members@.map_values(|m: Member| m.out)
    }

    /// For each live identity, the payloads handed to its channel.
    pub closed spec fn outboxes(&self) -> Map<u128, Seq<PayloadView>> {
        self.outboxes@
    }

    /// Identities are distinct, and the outboxes are those of the members.
    pub closed spec fn wf(&self) -> bool {
        &&& self.ids().no_duplicates()
        &&& self.outboxes@.dom().finite()
        &&& forall|k: u128| #[trigger] self.outboxes@.dom().contains(k) <==> self.ids().contains(k)
        &&& forall|i: int|
            0 <= i < self.members@.len() ==> self.outboxes@[#[trigger] self.members@[i].id]
                == self.members@[i].out.sent()
    }

    /// An empty registry.
    pub fn new() -> (r: Registry)
        ensures
            r.wf(),
            r.ids() == Seq::<u128>::empty(),
            r.outboxes() == Map::<u128, Seq<PayloadView>>::empty(),
    {
        let r = Registry { members: Vec::new(), outboxes: Ghost(Map::empty()) };
        assert(r.ids() =~= Seq::<u128>::empty());
        r
    }

    /// The number of live members.
    pub fn len(&self) -> (r: usize)
        ensures
            r == self.ids().len(),
    {
        self.members.len()
    }

    /// Whether `id` is a live member.
    pub fn contains(&self, id: u128) -> (r: bool)
        ensures
            r == self.ids().contains(id),
    {
        let mut i: usize = 0;
        while i < self.members.len()
            invariant
                i <= self.members@.len(),
                forall|j: int| 0 <= j < i ==> self.ids()[j] != id,
            decreases self.members@.len() - i,
        {
            if self.members[i].id == id {
                assert(self.ids()[i as int] == id);
                return true;
            }
            i = i + 1;
        }
        false
    }

    /// `candidate` when it is free, else some other identity that no member
    /// holds.
    fn unused_identity(&self, candidate: u128) -> (r: u128)
        ensures
            !self.ids().contains(r),
            !self.ids().contains(candidate) ==> r == candidate,
    {
        if !self.contains(candidate) {
            return candidate;
        }
        let n = self.members.len() as u128;
        let mut k: u128 = 0;
        while k <= n
            invariant
                n == self.ids().len(),
                n <= usize::MAX,
                k <= n + 1,
                self.ids().contains(candidate),
                forall|j: int| 0 <= j < k ==> #[trigger] self.ids().contains(j as u128),
            decreases n + 1 - k,
        {
            if !self.contains(k) {
                return k;
            }
            k = k + 1;
        }
        proof {
            lemma_free_identity_below(self.ids());
        }
        0
    }

    /// Adds a member with a fresh identity and a new delivery channel, and
    /// hands back the identity and the channel's receive half.
    pub fn register(&mut self) -> (r: (u128, ReceiveHandle))
        requires
            old(self).wf(),
        ensures
            final(self).wf(),
            !old(self).ids().contains(r.0),
            final(self).ids() == old(self).ids().push(r.0),
            final(self).outboxes() == old(self).outboxes().insert(r.0, Seq::<PayloadView>::empty()),
            follows(*old(self), *final(self), MembershipEvent::Joined(r.0)),
            final(self).outlets().len() == old(self).outlets().len() + 1,
            final(self).outlets().last().sent() == Seq::<PayloadView>::empty(),
            forall|i: int|
                0 <= i < old(self).outlets().len() ==> #[trigger] final(self).outlets()[i]
                    == old(self).outlets()[i],
    {
        let id = self.unused_identity(random_identity());
        let (out, rx) = open_channel();
        self.members.push(Member { id, out });
        self.outboxes = Ghost(self.outboxes@.insert(id, Seq::empty()));
        assert(self.ids() =~= old(self).ids().push(id));
        proof {
            assert forall|i: int| 0 <= i < self.members@.len() implies self.outboxes@[
                #[trigger] self.members@[i].id] == self.members@[i].out.sent() by {
                if i < old(self).members@.len() {
                    assert(old(self).ids()[i] == self.members@[i].id);
                }
            }
            assert forall|k: u128| #[trigger] self.outboxes@.dom().contains(k) <==> self.ids().contains(k) by {
                if k == id {
                    assert(self.ids()[old(self).ids().len() as int] == id);
                } else if old(self).ids().contains(k) {
                    let j = choose|j: int| 0 <= j < old(self).ids().len() && old(self).ids()[j] == k;
                    assert(self.ids()[j] == k);
                } else if self.ids().contains(k) {
                    let j = choose|j: int| 0 <= j < self.ids().len() && self.ids()[j] == k;
                    assert(old(self).ids()[j] == k);
                }
            }
        }
        (id, rx)
    }

    /// Removes the member `id` if there is one; otherwise changes nothing.
    pub fn deregister(&mut self, id: u128)
        requires
            old(self).wf(),
        ensures
            final(self).wf(),
            final(self).outboxes() == old(self).outboxes().remove(id),
            follows(*old(self), *final(self), MembershipEvent::Left(id)),
            !final(self).ids().contains(id),
            !old(self).ids().contains(id) ==> final(self).ids() == old(self).ids()
                && final(self).outlets() == old(self).outlets(),
            old(self).ids().contains(id) ==> exists|i: int|
                0 <= i < old(self).ids().len() && old(self).ids()[i] == id
                    && final(self).ids() == old(self).ids().remove(i)
                    && final(self).outlets() == old(self).outlets().remove(i),
    {
        let mut i: usize = 0;
        while i < self.members.len()
            invariant
                self.wf(),
                self.members == old(self).members,
                self.outboxes == old(self).outboxes,
                i <= self.members@.len(),
                forall|j: int| 0 <= j < i ==> self.ids()[j] != id,
            decreases self.members@.len() - i,
        {
            if self.members[i].id == id {
                let ghost before = self.ids();
                assert(before[i as int] == id);
                self.members.remove(i);
                self.outboxes = Ghost(self.outboxes@.remove(id));
                assert(self.ids() =~= before.remove(i as int));
                assert(self.outlets() =~= old(self).outlets().remove(i as int));
                proof {
                    assert forall|a: int, b: int|
                        0 <= a < self.ids().len() && 0 <= b < self.ids().len() && a != b
                            implies self.ids()[a] != self.ids()[b] by {
                        let a2 = if a < i { a } else { a + 1 };
                        let b2 = if b < i { b } else { b + 1 };
                        assert(before[a2] != before[b2]);
                    }
                    assert forall|a: int| 0 <= a < self.members@.len() implies self.outboxes@[
                        #[trigger] self.members@[a].id] == self.members@[a].out.sent() by {
                        let a2 = if a < i { a } else { a + 1 };
                        assert(self.members@[a] == old(self).members@[a2]);
                        assert(before[a2] != before[i as int]);
                    }
                    assert forall|k: u128| #[trigger] self.outboxes@.dom().contains(k) <==> self.ids().contains(k) by {
                        if self.ids().contains(k) {
                            let j = choose|j: int| 0 <= j < self.ids().len() && self.ids()[j] == k;
                            let j2 = if j < i { j } else { j + 1 };
                            assert(before[j2] == k);
                            assert(j2 != i);
                        }
                        if k != id && before.contains(k) {
                            let j = choose|j: int| 0 <= j < before.len() && before[j] == k;
                            assert(j != i);
                            let j1 = if j < i { j } else { j - 1 };
                            assert(self.ids()[j1] == k);
                        }
                    }
                }
                return;
            }
            i = i + 1;
        }
        assert(self.outboxes@.remove(id) =~= self.outboxes@);
    }
}

impl Registry {
    /// Hands a copy of `payload` to the channel of every member whose
    /// identity is not `sender`, one recipient after another, and reports
    /// for each recipient whether its channel took the copy. A recipient
    /// whose receiver is gone neither stops the fan-out nor leaves the
    /// registry; membership is unchanged.
    pub fn broadcast(&mut self, sender: u128, payload: &Payload) -> (report: Vec<Delivery>)
        requires
            old(self).wf(),
        ensures
            final(self).wf(),
            final(self).ids() == old(self).ids(),
            final(self).outboxes() == after_broadcast(old(self).outboxes(), sender, payload@),
            final(self).outlets().len() == old(self).outlets().len(),
            forall|i: int|
                0 <= i < old(self).outlets().len() ==> #[trigger] final(self).outlets()[i].sent()
                    == if old(self).ids()[i] == sender {
                    old(self).outlets()[i].sent()
                } else {
                    old(self).outlets()[i].sent().push(payload@)
                },
            report@.map_values(|d: Delivery| d.to) == others(old(self).ids(), sender),
    {
        let ghost start = self.outboxes@;
        let mut report: Vec<Delivery> = Vec::new();
        let mut i: usize = 0;
        while i < self.members.len()
            invariant
                old(self).wf(),
                self.wf(),
                self.ids() == old(self).ids(),
                start == old(self).outboxes@,
                i <= self.members@.len(),
                report@.map_values(|d: Delivery| d.to) == others(self.ids().take(i as int), sender),
                self.outboxes@.dom() == start.dom(),
                forall|k: u128| #[trigger]
                    self.outboxes@.dom().contains(k) ==> self.outboxes@[k] == if k != sender
                        && self.ids().take(i as int).contains(k) {
                        start[k].push(payload@)
                    } else {
                        start[k]
                    },
            decreases self.members@.len() - i,
        {
            let ghost done = self.ids().take(i as int);
            let id = self.members[i].id;
            assert(self.ids()[i as int] == id);
            assert(self.ids().take(i as int + 1) =~= done.push(id));
            assert(!done.contains(id)) by {
                if done.contains(id) {
                    let j = choose|j: int| 0 <= j < done.len() && done[j] == id;
                    assert(self.ids()[j] == id);
                }
            }
            if id != sender {
                let ghost members_before = self.members@;
                let accepted = self.members[i].out.offer(payload.duplicate());
                report.push(Delivery { to: id, accepted });
                self.outboxes = Ghost(self.outboxes@.insert(id, self.outboxes@[id].push(payload@)));
                proof {
                    assert(self.ids() =~= old(self).ids()) by {
                        assert forall|j: int| 0 <= j < self.members@.len() implies
                            self.members@[j].id == members_before[j].id by {}
                    }
                    assert forall|j: int| 0 <= j < self.members@.len() implies self.outboxes@[
                        #[trigger] self.members@[j].id] == self.members@[j].out.sent() by {
                        if j != i {
                            assert(self.ids()[j] != self.ids()[i as int]);
                            assert(self.members@[j] == members_before[j]);
                        }
                    }
                }
            }
            proof {
                let now = self.ids().take(i as int + 1);
                assert(report@.map_values(|d: Delivery| d.to) =~= others(now, sender)) by {
                    assert(now.drop_last() =~= done);
                }
                assert(self.outboxes@.dom() =~= start.dom());
                assert forall|k: u128| #[trigger] self.outboxes@.dom().contains(k) implies
                    self.outboxes@[k] == if k != sender && now.contains(k) {
                        start[k].push(payload@)
                    } else {
                        start[k]
                    } by {
                    if k == id {
                        assert(now[i as int] == id);
                    } else {
                        if now.contains(k) {
                            let j = choose|j: int| 0 <= j < now.len() && now[j] == k;
                            assert(done[j] == k);
                        }
                        if done.contains(k) {
                            let j = choose|j: int| 0 <= j < done.len() && done[j] == k;
                            assert(now[j] == k);
                        }
                    }
                }
            }
            i = i + 1;
        }
        assert(self.ids().take(i as int) =~= self.ids());
        assert(self.outboxes@ =~= after_broadcast(start, sender, payload@));
        report
    }
}

/// A sequence of `n` identities misses at least one of `0..=n`.
proof fn lemma_free_identity_below(ids: Seq<u128>)
    requires
        ids.len() <= usize::MAX,
    ensures
        exists|j: int| 0 <= j <= ids.len() && !#[trigger] ids.contains(j as u128),
{
    if forall|j: int| 0 <= j <= ids.len() ==> #[trigger] ids.contains(j as u128) {
        let ints = ids.map_values(|x: u128| x as int);
        let range = set_int_range(0, ids.len() as int + 1);
        lemma_int_range(0, ids.len() as int + 1);
        ints.lemma_cardinality_of_set();
        assert forall|j: int| range.contains(j) implies ints.to_set().contains(j) by {
            assert(ids.contains(j as u128));
            let i = choose|i: int| 0 <= i < ids.len() && ids[i] == j as u128;
            assert(ints[i] == j);
        }
        lemma_len_subset(range, ints.to_set());
    }
}

/// The identities other than `sender` are those of `ids` without it, each
/// once when `ids` has no repeats.
proof fn lemma_others(ids: Seq<u128>, sender: u128)
    requires
        ids.no_duplicates(),
    ensures
        others(ids, sender).no_duplicates(),
        others(ids, sender).len() <= ids.len(),
        forall|k: u128| #[trigger]
            others(ids, sender).contains(k) <==> (ids.contains(k) && k != sender),
    decreases ids.len(),
{
    if ids.len() > 0 {
        let rest = ids.drop_last();
        assert(rest.no_duplicates()) by {
            assert forall|a: int, b: int|
                0 <= a < rest.len() && 0 <= b < rest.len() && a != b implies rest[a] != rest[b] by {
                assert(ids[a] != ids[b]);
            }
        }
        lemma_others(rest, sender);
        assert(!rest.contains(ids.last())) by {
            if rest.contains(ids.last()) {
                let j = choose|j: int| 0 <= j < rest.len() && rest[j] == ids.last();
                assert(ids[j] == ids[ids.len() - 1]);
            }
        }
        assert forall|k: u128| #[trigger] ids.contains(k) <==> (rest.contains(k) || k == ids.last()) by {
            if ids.contains(k) && k != ids.last() {
                let j = choose|j: int| 0 <= j < ids.len() && ids[j] == k;
                assert(rest[j] == k);
            }
            if rest.contains(k) {
                let j = choose|j: int| 0 <= j < rest.len() && rest[j] == k;
                assert(ids[j] == k);
            }
            if k == ids.last() {
                assert(ids[ids.len() - 1] == k);
            }
        }
        if ids.last() != sender {
            let o = others(rest, sender);
            let o2 = o.push(ids.last());
            assert forall|k: u128| #[trigger] o2.contains(k) <==> (o.contains(k) || k == ids.last()) by {
                if o2.contains(k) && k != ids.last() {
                    let j = choose|j: int| 0 <= j < o2.len() && o2[j] == k;
                    assert(o[j] == k);
                }
                if o.contains(k) {
                    let j = choose|j: int| 0 <= j < o.len() && o[j] == k;
                    assert(o2[j] == k);
                }
                if k == ids.last() {
                    assert(o2[o.len() as int] == k);
                }
            }
            assert forall|a: int, b: int|
                0 <= a < o2.len() && 0 <= b < o2.len() && a != b implies o2[a] != o2[b] by {
                if a < o.len() && b < o.len() {
                    assert(o[a] != o[b]);
                } else if a < o.len() {
                    assert(o.contains(o[a]));
                } else if b < o.len() {
                    assert(o.contains(o[b]));
                }
            }
        }
    }
}

/// Live identities are pairwise distinct, and the number of members is the
/// number of live identities.
pub proof fn lemma_identities_distinct(r: &Registry)
    requires
        r.wf(),
    ensures
        r.ids().no_duplicates(),
        r.ids().len() == r.outboxes().dom().len(),
{
    r.ids().unique_seq_to_set();
    assert(r.outboxes().dom() =~= r.ids().to_set());
}

/// Each live identity's outbox is exactly what its channel's send half has
/// been handed, and there is one send half per identity.
pub proof fn lemma_outboxes_are_channel_records(r: &Registry)
    requires
        r.wf(),
    ensures
        r.outlets().len() == r.ids().len(),
        forall|i: int|
            0 <= i < r.ids().len() ==> r.outboxes()[#[trigger] r.ids()[i]] == r.outlets()[i].sent(),
{
    assert forall|i: int| 0 <= i < r.ids().len() implies r.outboxes()[#[trigger] r.ids()[i]]
        == r.outlets()[i].sent() by {
        assert(r.members@[i].id == r.ids()[i]);
    }
}

/// One change of membership: a session registered with the identity, or
/// deregistered it.
pub enum MembershipEvent {
    Joined(u128),
    Left(u128),
}

/// The identities that are live after `events`, starting from none.
pub open spec fn live_after(events: Seq<MembershipEvent>) -> Set<u128>
    decreases events.len(),
{
    if events.len() == 0 {
        Set::empty()
    } else {
        match events.last() {
            MembershipEvent::Joined(id) => live_after(events.drop_last()).insert(id),
            MembershipEvent::Left(id) => live_after(events.drop_last()).remove(id),
        }
    }
}

/// Whether registry `after` follows from `before` by `event`, as
/// `register` and `deregister` promise.
pub open spec fn follows(before: Registry, after: Registry, event: MembershipEvent) -> bool {
    &&& after.wf()
    &&& match event {
        MembershipEvent::Joined(id) => !before.ids().contains(id) && after.outboxes()
            == before.outboxes().insert(id, Seq::<PayloadView>::empty()),
        MembershipEvent::Left(id) => after.outboxes() == before.outboxes().remove(id),
    }
}

/// Over any run of registrations and deregistrations that starts from an
/// empty registry (the registry serialises them, whatever their
/// concurrency), the live identities are those registered and not yet
/// deregistered, each held by exactly one member, and the number of members
/// is their number.
pub proof fn lemma_membership_after_run(states: Seq<Registry>, events: Seq<MembershipEvent>)
    requires
        states.len() == events.len() + 1,
        states[0].wf(),
        states[0].ids().len() == 0,
        forall|i: int| 0 <= i < events.len() ==> follows(#[trigger] states[i], states[i + 1], events[i]),
    ensures
        states.last().ids().no_duplicates(),
        states.last().ids().to_set() == live_after(events),
        states.last().ids().len() == live_after(events).len(),
    decreases events.len(),
{
    let last = states.last();
    if events.len() == 0 {
        assert(last.ids().to_set() =~= Set::<u128>::empty());
    } else {
        let n = events.len() - 1;
        lemma_membership_after_run(states.drop_last(), events.drop_last());
        assert(follows(states[n], states[n + 1], events[n]));
        assert(states.drop_last().last() == states[n]);
        assert(events.drop_last() =~= events.subrange(0, n));
        let prev = states[n];
        assert(prev.wf()) by {
            if n > 0 {
                assert(follows(states[n - 1], states[n], events[n - 1]));
            }
        }
        assert(prev.outboxes().dom() =~= prev.ids().to_set());
        assert(last.outboxes().dom() =~= last.ids().to_set());
        assert(last.ids().to_set() =~= live_after(events));
    }
    lemma_identities_distinct(&last);
    assert(last.outboxes().dom() =~= last.ids().to_set());
}

/// A broadcast offers the payload to each live identity other than the
/// sender exactly once, and to the sender never: one offer for each other
/// member, so no more offers than members, whatever the recipients' state.
pub proof fn lemma_fan_out_once(r: &Registry, sender: u128, p: PayloadView)
    requires
        r.wf(),
    ensures
        others(r.ids(), sender).no_duplicates(),
        others(r.ids(), sender).len() <= r.ids().len(),
        !others(r.ids(), sender).contains(sender),
        r.ids().contains(sender) ==> after_broadcast(r.outboxes(), sender, p)[sender]
            == r.outboxes()[sender],
        forall|k: u128|
            r.ids().contains(k) && k != sender ==> #[trigger] others(r.ids(), sender).contains(k)
                && after_broadcast(r.outboxes(), sender, p)[k] == r.outboxes()[k].push(p),
{
    lemma_others(r.ids(), sender);
}

/// Deregistering an identity that is not live changes nothing, so
/// deregistering the same identity twice is the same as doing it once.
pub proof fn lemma_deregister_idempotent(boxes: Map<u128, Seq<PayloadView>>, id: u128)
    ensures
        !boxes.dom().contains(id) ==> boxes.remove(id) == boxes,
        boxes.remove(id).remove(id) == boxes.remove(id),
{
    assert(!boxes.dom().contains(id) ==> boxes.remove(id) =~= boxes);
    assert(boxes.remove(id).remove(id) =~= boxes.remove(id));
}

/// Two broadcasts by one sender reach every other live identity in the
/// order in which they were made.
pub proof fn lemma_per_sender_order(
    boxes: Map<u128, Seq<PayloadView>>,
    sender: u128,
    first: PayloadView,
    second: PayloadView,
    k: u128,
)
    requires
        boxes.dom().contains(k),
        k != sender,
    ensures
        after_broadcast(after_broadcast(boxes, sender, first), sender, second)[k] == boxes[k].push(
            first,
        ).push(second),
{
}

/// A broadcast only appends: every outbox keeps what it held as a prefix,
/// so what an earlier broadcast offered stays ahead of what later ones offer.
pub proof fn lemma_broadcast_appends(
    boxes: Map<u128, Seq<PayloadView>>,
    sender: u128,
    p: PayloadView,
    k: u128,
)
    requires
        boxes.dom().contains(k),
    ensures
        after_broadcast(boxes, sender, p).dom() == boxes.dom(),
        boxes[k].is_prefix_of(after_broadcast(boxes, sender, p)[k]),
{
    assert(after_broadcast(boxes, sender, p).dom() =~= boxes.dom());
    let after = after_broadcast(boxes, sender, p)[k];
    assert(after.subrange(0, boxes[k].len() as int) =~= boxes[k]);
}

} // verus!

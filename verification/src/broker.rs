//! The console broker: one bounded message channel plus the identity
//! registry that grants or revokes each producer's right to send.
//!
//! The registry is a phonebook keyed by derived identifier, together with
//! the authorized and blacklisted membership sets. The two sets are kept in
//! sync with the stored status by every mutating operation: an identifier is
//! in the authorized set exactly when its phonebook status is `Authorized`,
//! and in the blacklisted set exactly when its status is `BlackListed` — so
//! the sets are always disjoint and an identifier moves from one to the
//! other, never occupying both.

use vstd::prelude::*;
use vstd::pervasive::VecAdditionalExecFns;

use crate::channel::{MsgChannel, chan_bound, chan_queue, chan_try_pop, chan_try_push,
    new_msg_channel};
use crate::ident::spec_hash;
use crate::text::sentinel;
use crate::CHANNEL_CAPACITY;

verus! {

/// The standing of one identity in the registry. `NotInPhonebook` is only a
/// query result for unknown identifiers; it is never stored.
#[derive(Debug, Clone, Copy, PartialEq, Eq, Structural)]
pub enum SenderStatus {
    Authorized,
    BlackListed,
    NotAuthorized,
    NotInPhonebook,
}

/// Message priorities reserved for richer payloads.
#[derive(Debug, Clone, Copy, PartialEq, Eq, Structural)]
pub enum PriorityStatus {
    Urgent,
    Critical,
    Notice,
    Warning,
    Exception,
    Delay,
    Verbose,
    Normal,
    Ignore,
    Informational,
}

/// One phonebook entry: a derived identifier, the plaintext name it was
/// derived from, and the identity's current standing.
#[derive(Debug)]
pub struct PhonebookRecord {
    pub id: u64,
    pub name: String,
    pub status: SenderStatus,
}

/// A cloneable capability to enqueue messages, bound to a registered
/// identity. It carries only the identity's derived identifier; every send
/// goes through the broker, which consults the registry first.
#[derive(Debug, Clone, Copy, PartialEq, Eq, Structural)]
pub struct ProducerHandle {
    pub id: u64,
}

/// Why a checked send was refused.
#[derive(Debug, Clone, Copy, PartialEq, Eq, Structural)]
pub enum SendError {
    /// The sending identity is not currently `Authorized`.
    Unauthorized,
    /// The bounded channel is at capacity.
    ChannelFull,
}

/// How a registry entry is looked up: by derived identifier, or by the
/// plaintext name it was derived from.
#[derive(Debug)]
pub enum LookupKey {
    ById(u64),
    ByName(String),
}

/// No two phonebook records share an identifier.
pub open spec fn ids_unique(s: Seq<PhonebookRecord>) -> bool {
    forall|i: int, j: int| 0 <= i < j < s.len() ==> s[i].id != s[j].id
}

/// No identifier appears twice in a membership set.
pub open spec fn elems_unique(s: Seq<u64>) -> bool {
    forall|i: int, j: int| 0 <= i < j < s.len() ==> s[i] != s[j]
}

/// Whether the phonebook holds an entry for `id`.
pub open spec fn pb_has(s: Seq<PhonebookRecord>, id: u64) -> bool {
    exists|i: int| 0 <= i < s.len() && s[i].id == id
}

/// The index of the entry for `id`, when one exists.
pub open spec fn pb_idx(s: Seq<PhonebookRecord>, id: u64) -> int {
    choose|i: int| 0 <= i < s.len() && s[i].id == id
}

/// The standing recorded for `id`; `NotInPhonebook` for an absent entry.
pub open spec fn pb_status(s: Seq<PhonebookRecord>, id: u64) -> SenderStatus {
    if pb_has(s, id) {
        s[pb_idx(s, id)].status
    } else {
        SenderStatus::NotInPhonebook
    }
}

/// The plaintext name recorded for `id`, when an entry exists.
pub open spec fn pb_name(s: Seq<PhonebookRecord>, id: u64) -> Seq<char> {
    s[pb_idx(s, id)].name@
}

proof fn lemma_pb_found(s: Seq<PhonebookRecord>, i: int)
    requires
        ids_unique(s),
        0 <= i < s.len(),
    ensures
        pb_has(s, s[i].id),
        pb_idx(s, s[i].id) == i,
{
    let id = s[i].id;
    assert(pb_has(s, id));
    let j = pb_idx(s, id);
    assert(0 <= j < s.len() && s[j].id == id);
    if i < j {
        assert(s[i].id != s[j].id);
    } else if j < i {
        assert(s[j].id != s[i].id);
    }
}

proof fn lemma_pb_push_fresh(s: Seq<PhonebookRecord>, r: PhonebookRecord)
    requires
        ids_unique(s),
        !pb_has(s, r.id),
    ensures
        ids_unique(s.push(r)),
        pb_has(s.push(r), r.id),
        pb_status(s.push(r), r.id) == r.status,
        pb_name(s.push(r), r.id) == r.name@,
        forall|x: u64| x != r.id ==> pb_has(s.push(r), x) == pb_has(s, x),
        forall|x: u64| x != r.id ==> pb_status(s.push(r), x) == pb_status(s, x),
        forall|x: u64| x != r.id && pb_has(s, x) ==> pb_name(s.push(r), x) == pb_name(s, x),
{
    let t = s.push(r);
    assert forall|i: int, j: int| 0 <= i < j < t.len() implies t[i].id != t[j].id by {
        if j == s.len() {
            assert(t[i] == s[i]);
            if s[i].id == r.id {
                assert(pb_has(s, r.id));
            }
        } else {
            assert(t[i] == s[i] && t[j] == s[j]);
        }
    }
    lemma_pb_found(t, s.len() as int);
    assert forall|x: u64| x != r.id implies pb_has(t, x) == pb_has(s, x) && pb_status(t, x)
        == pb_status(s, x) && (pb_has(s, x) ==> pb_name(t, x) == pb_name(s, x)) by {
        if pb_has(s, x) {
            let i = pb_idx(s, x);
            assert(0 <= i < s.len() && s[i].id == x);
            assert(t[i] == s[i]);
            lemma_pb_found(s, i);
            lemma_pb_found(t, i);
        } else {
            if pb_has(t, x) {
                let j = pb_idx(t, x);
                assert(0 <= j < t.len() && t[j].id == x);
                if j < s.len() {
                    assert(s[j].id == x);
                    assert(pb_has(s, x));
                } else {
                    assert(t[j].id == r.id);
                }
                assert(false);
            }
        }
    }
}

proof fn lemma_pb_update(s: Seq<PhonebookRecord>, k: int, r: PhonebookRecord)
    requires
        ids_unique(s),
        0 <= k < s.len(),
        r.id == s[k].id,
    ensures
        ids_unique(s.update(k, r)),
        pb_has(s.update(k, r), r.id),
        pb_status(s.update(k, r), r.id) == r.status,
        pb_name(s.update(k, r), r.id) == r.name@,
        forall|x: u64| x != r.id ==> pb_has(s.update(k, r), x) == pb_has(s, x),
        forall|x: u64| x != r.id ==> pb_status(s.update(k, r), x) == pb_status(s, x),
        forall|x: u64| x != r.id && pb_has(s, x) ==> pb_name(s.update(k, r), x) == pb_name(s, x),
{
    let t = s.update(k, r);
    assert forall|i: int| 0 <= i < t.len() implies t[i].id == s[i].id by {
        if i != k {
            assert(t[i] == s[i]);
        }
    }
    lemma_pb_found(t, k);
    assert forall|x: u64| x != r.id implies pb_has(t, x) == pb_has(s, x) && pb_status(t, x)
        == pb_status(s, x) && (pb_has(s, x) ==> pb_name(t, x) == pb_name(s, x)) by {
        if pb_has(s, x) {
            let i = pb_idx(s, x);
            assert(0 <= i < s.len() && s[i].id == x);
            assert(i != k);
            assert(t[i] == s[i]);
            lemma_pb_found(s, i);
            lemma_pb_found(t, i);
        } else {
            if pb_has(t, x) {
                let j = pb_idx(t, x);
                assert(0 <= j < t.len() && t[j].id == x);
                assert(s[j].id == x);
                assert(pb_has(s, x));
                assert(false);
            }
        }
    }
}

proof fn lemma_unique_push(s: Seq<u64>, v: u64)
    requires
        elems_unique(s),
        !s.contains(v),
    ensures
        elems_unique(s.push(v)),
        forall|x: u64| #[trigger] s.push(v).contains(x) <==> (s.contains(x) || x == v),
{
    let t = s.push(v);
    assert forall|i: int, j: int| 0 <= i < j < t.len() implies t[i] != t[j] by {
        if j == s.len() {
            assert(t[i] == s[i]);
            if s[i] == v {
                assert(s.contains(v));
            }
        } else {
            assert(t[i] == s[i] && t[j] == s[j]);
        }
    }
    assert forall|x: u64| #[trigger] t.contains(x) <==> (s.contains(x) || x == v) by {
        if s.contains(x) {
            let k = choose|k: int| 0 <= k < s.len() && s[k] == x;
            assert(t[k] == x);
            assert(t.contains(x));
        }
        if x == v {
            assert(t[s.len() as int] == x);
            assert(t.contains(x));
        }
        if t.contains(x) {
            let k = choose|k: int| 0 <= k < t.len() && t[k] == x;
            if k < s.len() {
                assert(s[k] == x);
                assert(s.contains(x));
            } else {
                assert(x == v);
            }
        }
    }
}

proof fn lemma_unique_remove(s: Seq<u64>, i: int)
    requires
        elems_unique(s),
        0 <= i < s.len(),
    ensures
        elems_unique(s.remove(i)),
        !s.remove(i).contains(s[i]),
        forall|x: u64| x != s[i] ==> (#[trigger] s.remove(i).contains(x) == s.contains(x)),
{
    let t = s.remove(i);
    assert(t.len() == s.len() - 1);
    assert forall|k: int| 0 <= k < t.len() implies t[k] == (if k < i {
        s[k]
    } else {
        s[k + 1]
    }) by {}
    assert forall|k: int, l: int| 0 <= k < l < t.len() implies t[k] != t[l] by {
        let sk: int = if k < i {
            k
        } else {
            k + 1
        };
        let sl: int = if l < i {
            l
        } else {
            l + 1
        };
        assert(t[k] == s[sk] && t[l] == s[sl]);
        assert(sk < sl);
    }
    assert(!t.contains(s[i])) by {
        if t.contains(s[i]) {
            let k = choose|k: int| 0 <= k < t.len() && t[k] == s[i];
            if k < i {
                assert(s[k] == s[i]);
            } else {
                assert(s[k + 1] == s[i]);
            }
            assert(false);
        }
    }
    assert forall|x: u64| x != s[i] implies (#[trigger] t.contains(x) == s.contains(x)) by {
        if t.contains(x) {
            let k = choose|k: int| 0 <= k < t.len() && t[k] == x;
            if k < i {
                assert(s[k] == x);
            } else {
                assert(s[k + 1] == x);
            }
            assert(s.contains(x));
        }
        if s.contains(x) {
            let k = choose|k: int| 0 <= k < s.len() && s[k] == x;
            assert(k != i);
            if k < i {
                assert(t[k] == x);
            } else {
                assert(t[k - 1] == x);
            }
            assert(t.contains(x));
        }
    }
}

/// The identifier a lookup key resolves to: a `ById` key is taken as it is,
/// a `ByName` key is digested first.
pub open spec fn spec_key_id(k: LookupKey) -> u64 {
    match k {
        LookupKey::ById(id) => id,
        LookupKey::ByName(n) => spec_hash(n@),
    }
}

/// Removes the one occurrence of `x` from a duplicate-free vector.
fn remove_elem(v: &mut Vec<u64>, x: u64)
    requires
        elems_unique(old(v)@),
        old(v)@.contains(x),
    ensures
        elems_unique(final(v)@),
        !final(v)@.contains(x),
        forall|y: u64| y != x ==> (#[trigger] final(v)@.contains(y) == old(v)@.contains(y)),
{
    let n = v.len();
    let mut i: usize = 0;
    while i < n
        invariant
            0 <= i <= n,
            n == v@.len(),
            v@ == old(v)@,
            elems_unique(v@),
            v@.contains(x),
            forall|k: int| 0 <= k < i ==> v@[k] != x,
        decreases n - i,
    {
        if v[i] == x {
            proof {
                lemma_unique_remove(v@, i as int);
            }
            v.remove(i);
            return ;
        }
        i = i + 1;
    }
    proof {
        let k = choose|k: int| 0 <= k < v@.len() && v@[k] == x;
        assert(false);
    }
}

/// The prefix of a queue that the consumer delivers before it stops: every
/// message up to, and not including, the first sentinel; the whole queue
/// when no sentinel is queued.
pub open spec fn deliverable(q: Seq<Seq<char>>) -> Seq<Seq<char>>
    decreases q.len(),
{
    if q.len() == 0 {
        Seq::empty()
    } else if q[0] == sentinel() {
        Seq::empty()
    } else {
        seq![q[0]] + deliverable(q.drop_first())
    }
}

/// What stays queued after the consumer stops: everything behind the first
/// sentinel, or nothing when no sentinel is queued.
pub open spec fn after_shutdown(q: Seq<Seq<char>>) -> Seq<Seq<char>>
    decreases q.len(),
{
    if q.len() == 0 {
        Seq::empty()
    } else if q[0] == sentinel() {
        q.drop_first()
    } else {
        after_shutdown(q.drop_first())
    }
}

/// Delivery splits the queue at the first sentinel: with no sentinel in the
/// first `k` messages, either `k` is the whole queue and everything is
/// delivered, or a sentinel sits at `k` and exactly the `k` messages before
/// it are delivered while everything after it stays queued.
pub proof fn lemma_deliverable_split(q: Seq<Seq<char>>, k: int)
    requires
        0 <= k <= q.len(),
        forall|t: int| 0 <= t < k ==> q[t] != sentinel(),
    ensures
        k == q.len() ==> deliverable(q) == q && after_shutdown(q) == Seq::<Seq<char>>::empty(),
        k < q.len() && q[k] == sentinel() ==> deliverable(q) == q.take(k) && after_shutdown(q)
            == q.skip(k + 1),
    decreases q.len(),
{
    if q.len() == 0 {
        assert(q.take(0) =~= q);
    } else if k == 0 {
        if q[0] == sentinel() {
            assert(q.take(0) =~= Seq::<Seq<char>>::empty());
            assert(q.drop_first() =~= q.skip(1));
        }
    } else {
        let r = q.drop_first();
        assert forall|t: int| 0 <= t < k - 1 implies r[t] != sentinel() by {
            assert(r[t] == q[t + 1]);
        }
        lemma_deliverable_split(r, k - 1);
        if k == q.len() {
            assert(seq![q[0]] + r =~= q);
        } else if q[k] == sentinel() {
            assert(r[k - 1] == q[k]);
            assert(seq![q[0]] + r.take(k - 1) =~= q.take(k));
            assert(r.skip(k) =~= q.skip(k + 1));
        }
    }
}

proof fn lemma_deliverable_at(q: Seq<Seq<char>>, t: int)
    requires
        0 <= t < q.len(),
        forall|u: int| 0 <= u <= t ==> q[u] != sentinel(),
    ensures
        deliverable(q).len() > t,
        deliverable(q)[t] == q[t],
    decreases t,
{
    let r = q.drop_first();
    if t == 0 {
        assert(deliverable(q)[0] == q[0]);
    } else {
        assert forall|u: int| 0 <= u <= t - 1 implies r[u] != sentinel() by {
            assert(r[u] == q[u + 1]);
        }
        lemma_deliverable_at(r, t - 1);
        assert(deliverable(q)[t] == deliverable(r)[t - 1]);
        assert(r[t - 1] == q[t]);
    }
}

/// Delivery is FIFO: of two messages enqueued in order and not preceded by
/// a sentinel, both are delivered, each at the position it was enqueued at,
/// so the earlier one arrives first.
pub proof fn lemma_fifo_order(q: Seq<Seq<char>>, i: int, j: int)
    requires
        0 <= i < j < q.len(),
        forall|t: int| 0 <= t <= j ==> q[t] != sentinel(),
    ensures
        deliverable(q).len() > j,
        deliverable(q)[i] == q[i],
        deliverable(q)[j] == q[j],
{
    lemma_deliverable_at(q, i);
    lemma_deliverable_at(q, j);
}

/// FIFO per producer: two ordinary messages enqueued one after the other
/// onto a queue that holds no sentinel are both delivered, at the very
/// positions they were enqueued at — the one sent first arrives first.
pub proof fn lemma_per_producer_fifo(q: Seq<Seq<char>>, m1: Seq<char>, m2: Seq<char>)
    requires
        forall|t: int| 0 <= t < q.len() ==> q[t] != sentinel(),
        m1 != sentinel(),
        m2 != sentinel(),
    ensures
        deliverable(q.push(m1).push(m2)).len() == q.len() + 2,
        deliverable(q.push(m1).push(m2))[q.len() as int] == m1,
        deliverable(q.push(m1).push(m2))[q.len() as int + 1] == m2,
{
    let q2 = q.push(m1).push(m2);
    assert forall|t: int| 0 <= t < q2.len() implies q2[t] != sentinel() by {
        if t < q.len() {
            assert(q2[t] == q[t]);
        }
    }
    lemma_deliverable_split(q2, q2.len() as int);
}

/// The sentinel stops the consumer without jumping the queue: every message
/// enqueued strictly before the first sentinel is still delivered, in order,
/// and nothing at or after the sentinel is.
pub proof fn lemma_sentinel_stops_delivery(q: Seq<Seq<char>>, k: int)
    requires
        0 <= k < q.len(),
        q[k] == sentinel(),
        forall|t: int| 0 <= t < k ==> q[t] != sentinel(),
    ensures
        deliverable(q) == q.take(k),
        after_shutdown(q) == q.skip(k + 1),
{
    lemma_deliverable_split(q, k);
}

/// The broker: the single owner of the bounded message channel and of the
/// identity registry. It is created once at process start; the consuming end
/// of the channel never leaves it, and producer handles are minted from it.
pub struct Console {
    pub channel: MsgChannel,
    pub phonebook: Vec<PhonebookRecord>,
    pub authorized: Vec<u64>,
    pub blacklisted: Vec<u64>,
}

impl Console {
    /// The phonebook as a sequence of records.
    pub open spec fn pb(self) -> Seq<PhonebookRecord> {
        self.phonebook@
    }

    /// The identifiers currently granted the right to send.
    pub open spec fn auth_ids(self) -> Seq<u64> {
        self.authorized@
    }

    /// The identifiers whose right to send was revoked.
    pub open spec fn black_ids(self) -> Seq<u64> {
        self.blacklisted@
    }

    /// The messages queued in the channel, oldest first.
    pub open spec fn queue(self) -> Seq<Seq<char>> {
        chan_queue(self.channel)
    }

    /// The channel's fixed capacity.
    pub open spec fn bound(self) -> nat {
        chan_bound(self.channel)
    }

    /// The registry's standing for `id`.
    pub open spec fn status_of(self, id: u64) -> SenderStatus {
        pb_status(self.pb(), id)
    }

    /// Whether `id` may send right now.
    pub open spec fn send_allowed(self, id: u64) -> bool {
        self.status_of(id) is Authorized
    }

    /// Well-formedness: identifiers are unique everywhere, `NotInPhonebook`
    /// is never stored, and the membership sets agree exactly with the
    /// stored statuses (which makes them disjoint).
    pub open spec fn wf(self) -> bool {
        &&& ids_unique(self.pb())
        &&& elems_unique(self.auth_ids())
        &&& elems_unique(self.black_ids())
        &&& (forall|i: int|
            0 <= i < self.pb().len() ==> !((#[trigger] self.pb()[i]).status is NotInPhonebook))
        &&& (forall|id: u64| #![trigger self.auth_ids().contains(id)] #![trigger pb_status(self.pb(), id)]
            self.auth_ids().contains(id) <==> pb_status(self.pb(), id) is Authorized)
        &&& (forall|id: u64| #![trigger self.black_ids().contains(id)] #![trigger pb_status(self.pb(), id)]
            self.black_ids().contains(id) <==> pb_status(self.pb(), id) is BlackListed)
    }

    /// Derives the stable identifier for a name.
    pub fn generate_id(identifier: String) -> (id: u64)
        ensures
            id == spec_hash(identifier@),
    {
        crate::ident::hash_name(identifier.as_str())
    }

    /// Starts a broker that owns a fresh channel and an empty registry.
    /// The consuming end stays inside the broker for its whole lifetime.
    pub fn init() -> (c: Console)
        ensures
            c.wf(),
            c.pb() == Seq::<PhonebookRecord>::empty(),
            c.auth_ids() == Seq::<u64>::empty(),
            c.black_ids() == Seq::<u64>::empty(),
            c.queue() == Seq::<Seq<char>>::empty(),
            c.bound() == CHANNEL_CAPACITY as nat,
    {
        let c = Console {
            channel: new_msg_channel(CHANNEL_CAPACITY),
            phonebook: Vec::new(),
            authorized: Vec::new(),
            blacklisted: Vec::new(),
        };
        proof {
            assert forall|id: u64| !(#[trigger] c.auth_ids().contains(id)) by {}
            assert forall|id: u64| !(#[trigger] c.black_ids().contains(id)) by {}
        }
        c
    }

    /// Finds the phonebook index of the entry for `id`, when one exists.
    fn pb_find(&self, id: u64) -> (r: Option<usize>)
        ensures
            match r {
                Some(k) => k < self.pb().len() && self.pb()[k as int].id == id,
                None => forall|t: int| 0 <= t < self.pb().len() ==> self.pb()[t].id != id,
            },
    {
        let n = self.phonebook.len();
        let mut i: usize = 0;
        while i < n
            invariant
                0 <= i <= n,
                n == self.pb().len(),
                forall|t: int| 0 <= t < i ==> self.pb()[t].id != id,
            decreases n - i,
        {
            if self.phonebook[i].id == id {
                return Some(i);
            }
            i = i + 1;
        }
        None
    }

    /// The recorded standing of the identifier, `NotInPhonebook` when the
    /// registry has never seen it: an expected outcome, not an error.
    pub fn get_sender_status(&self, search_id: u64) -> (st: SenderStatus)
        requires
            self.wf(),
        ensures
            st == self.status_of(search_id),
    {
        let n = self.phonebook.len();
        let mut i: usize = 0;
        while i < n
            invariant
                0 <= i <= n,
                n == self.pb().len(),
                self.wf(),
                forall|k: int| 0 <= k < i ==> self.pb()[k].id != search_id,
            decreases n - i,
        {
            if self.phonebook[i].id == search_id {
                proof {
                    lemma_pb_found(self.pb(), i as int);
                }
                return self.phonebook[i].status;
            }
            i = i + 1;
        }
        proof {
            if pb_has(self.pb(), search_id) {
                let k = pb_idx(self.pb(), search_id);
                assert(0 <= k < self.pb().len() && self.pb()[k].id == search_id);
                assert(false);
            }
        }
        SenderStatus::NotInPhonebook
    }

    /// The standing looked up by plaintext name: the name is digested first.
    pub fn get_sender_status_by_name(&self, search_name: String) -> (st: SenderStatus)
        requires
            self.wf(),
        ensures
            st == self.status_of(spec_hash(search_name@)),
    {
        let id = Console::generate_id(search_name);
        self.get_sender_status(id)
    }

    /// The plaintext name behind a derived identifier, or the fixed notice
    /// text when the identifier is unknown.
    pub fn get_plaintext_name(&self, search_id: u64) -> (name: String)
        requires
            self.wf(),
        ensures
            pb_has(self.pb(), search_id) ==> name@ == pb_name(self.pb(), search_id),
            !pb_has(self.pb(), search_id) ==> name@ == "Name not found"@,
    {
        let n = self.phonebook.len();
        let mut i: usize = 0;
        while i < n
            invariant
                0 <= i <= n,
                n == self.pb().len(),
                self.wf(),
                forall|k: int| 0 <= k < i ==> self.pb()[k].id != search_id,
            decreases n - i,
        {
            if self.phonebook[i].id == search_id {
                proof {
                    lemma_pb_found(self.pb(), i as int);
                }
                return self.phonebook[i].name.clone();
            }
            i = i + 1;
        }
        proof {
            if pb_has(self.pb(), search_id) {
                let k = pb_idx(self.pb(), search_id);
                assert(0 <= k < self.pb().len() && self.pb()[k].id == search_id);
                assert(false);
            }
        }
        "Name not found".to_owned()
    }

    /// A snapshot of the identifiers currently authorized, in the order
    /// they were granted; each appears exactly once.
    pub fn get_authorized_names(&self) -> (ids: Vec<u64>)
        ensures
            ids@ == self.auth_ids(),
    {
        let n = self.authorized.len();
        let mut ids: Vec<u64> = Vec::new();
        let mut i: usize = 0;
        while i < n
            invariant
                0 <= i <= n,
                n == self.auth_ids().len(),
                ids@ == self.auth_ids().take(i as int),
            decreases n - i,
        {
            ids.push(self.authorized[i]);
            proof {
                assert(self.auth_ids().take(i + 1) =~= self.auth_ids().take(i as int).push(
                    self.auth_ids()[i as int],
                ));
            }
            i = i + 1;
        }
        proof {
            assert(self.auth_ids().take(n as int) =~= self.auth_ids());
        }
        ids
    }

    /// A snapshot of the identifiers currently blacklisted, in the order
    /// they were revoked; each appears exactly once.
    pub fn get_blacklist_names(&self) -> (ids: Vec<u64>)
        ensures
            ids@ == self.black_ids(),
    {
        let n = self.blacklisted.len();
        let mut ids: Vec<u64> = Vec::new();
        let mut i: usize = 0;
        while i < n
            invariant
                0 <= i <= n,
                n == self.black_ids().len(),
                ids@ == self.black_ids().take(i as int),
            decreases n - i,
        {
            ids.push(self.blacklisted[i]);
            proof {
                assert(self.black_ids().take(i + 1) =~= self.black_ids().take(i as int).push(
                    self.black_ids()[i as int],
                ));
            }
            i = i + 1;
        }
        proof {
            assert(self.black_ids().take(n as int) =~= self.black_ids());
        }
        ids
    }

    /// Mints a producer handle for `name`: the identifier is derived from
    /// the name and, when the registry has never seen it, registered as
    /// `Authorized`. Registration is idempotent: an existing entry keeps its
    /// standing — in particular a blacklisted identity is not restored by
    /// re-registering; that takes an explicit transition. Handles minted
    /// twice for one name are interchangeable clones carrying the same
    /// identifier, and all enqueue into the same channel.
    pub fn new_sender(&mut self, name: String) -> (h: ProducerHandle)
        requires
            old(self).wf(),
        ensures
            final(self).wf(),
            h.id == spec_hash(name@),
            final(self).queue() == old(self).queue(),
            final(self).bound() == old(self).bound(),
            old(self).status_of(h.id) is NotInPhonebook ==> {
                &&& final(self).status_of(h.id) is Authorized
                &&& pb_name(final(self).pb(), h.id) == name@
                &&& final(self).auth_ids() == old(self).auth_ids().push(h.id)
                &&& final(self).black_ids() == old(self).black_ids()
                &&& forall|x: u64|
                    x != h.id ==> final(self).status_of(x) == old(self).status_of(x)
            },
            !(old(self).status_of(h.id) is NotInPhonebook) ==> *final(self) == *old(self),
            old(self).status_of(h.id) is NotInPhonebook || old(self).status_of(h.id)
                is Authorized ==> final(self).status_of(h.id) is Authorized,
    {
        let id = Console::generate_id(name.clone());
        let st = self.get_sender_status(id);
        if st != SenderStatus::NotInPhonebook {
            return ProducerHandle { id };
        }
        let ghost pb0 = self.pb();
        let ghost a0 = self.auth_ids();
        let ghost b0 = self.black_ids();
        let rec = PhonebookRecord { id, name, status: SenderStatus::Authorized };
        proof {
            lemma_pb_push_fresh(pb0, rec);
            lemma_unique_push(a0, id);
        }
        self.phonebook.push(rec);
        self.authorized.push(id);
        proof {
            assert forall|i: int| 0 <= i < self.pb().len() implies !((#[trigger] self.pb()[i]).status
                is NotInPhonebook) by {
                if i < pb0.len() {
                    assert(self.pb()[i] == pb0[i]);
                }
            }
            assert forall|x: u64|
                #![trigger self.auth_ids().contains(x)]
                #![trigger pb_status(self.pb(), x)]
                self.auth_ids().contains(x) <==> pb_status(self.pb(), x) is Authorized by {
                if x != id {
                    assert(a0.contains(x) <==> pb_status(pb0, x) is Authorized);
                    assert(pb_status(self.pb(), x) == pb_status(pb0, x));
                }
            }
            assert forall|x: u64|
                #![trigger self.black_ids().contains(x)]
                #![trigger pb_status(self.pb(), x)]
                self.black_ids().contains(x) <==> pb_status(self.pb(), x) is BlackListed by {
                if x != id {
                    assert(b0.contains(x) <==> pb_status(pb0, x) is BlackListed);
                    assert(pb_status(self.pb(), x) == pb_status(pb0, x));
                }
            }
        }
        ProducerHandle { id }
    }

    /// Updates the recorded standing of one identity, looked up either by
    /// derived identifier or by plaintext name (a name is digested first).
    /// The membership sets follow the stored status. Reports `false` — a
    /// no-op, not an error — when the lookup misses or when the requested
    /// standing is `NotInPhonebook`, which is a query result and never
    /// stored.
    pub fn change_sender_status(&mut self, search_key: LookupKey, new_status: SenderStatus) -> (changed:
        bool)
        requires
            old(self).wf(),
        ensures
            final(self).wf(),
            final(self).queue() == old(self).queue(),
            final(self).bound() == old(self).bound(),
            changed == (pb_has(old(self).pb(), spec_key_id(search_key)) && !(new_status
                is NotInPhonebook)),
            changed ==> {
                &&& final(self).status_of(spec_key_id(search_key)) == new_status
                &&& pb_name(final(self).pb(), spec_key_id(search_key)) == pb_name(
                    old(self).pb(),
                    spec_key_id(search_key),
                )
                &&& forall|x: u64|
                    x != spec_key_id(search_key) ==> final(self).status_of(x) == old(
                        self,
                    ).status_of(x)
                &&& forall|x: u64|
                    x != spec_key_id(search_key) ==> (final(self).auth_ids().contains(x) == old(
                        self,
                    ).auth_ids().contains(x))
                &&& forall|x: u64|
                    x != spec_key_id(search_key) ==> (final(self).black_ids().contains(x) == old(
                        self,
                    ).black_ids().contains(x))
            },
            !changed ==> *final(self) == *old(self),
    {
        let id = match search_key {
            LookupKey::ById(i) => i,
            LookupKey::ByName(n) => Console::generate_id(n),
        };
        if matches!(new_status, SenderStatus::NotInPhonebook) {
            return false;
        }
        let ghost pb0 = self.pb();
        let ghost a0 = self.auth_ids();
        let ghost b0 = self.black_ids();
        let k: usize = match self.pb_find(id) {
            Some(k) => k,
            None => {
                proof {
                    if pb_has(pb0, id) {
                        let t = pb_idx(pb0, id);
                        assert(0 <= t < pb0.len() && pb0[t].id == id);
                        assert(false);
                    }
                }
                return false;
            },
        };
        proof {
            lemma_pb_found(pb0, k as int);
        }
        let old_st = self.phonebook[k].status;
        if old_st == new_status {
            return true;
        }
        let rec = PhonebookRecord {
            id,
            name: self.phonebook[k].name.clone(),
            status: new_status,
        };
        proof {
            lemma_pb_update(pb0, k as int, rec);
        }
        self.phonebook.set(k, rec);
        if matches!(old_st, SenderStatus::Authorized) {
            remove_elem(&mut self.authorized, id);
        } else if matches!(old_st, SenderStatus::BlackListed) {
            remove_elem(&mut self.blacklisted, id);
        }
        let ghost a1 = self.auth_ids();
        let ghost b1 = self.black_ids();
        proof {
            assert(!a1.contains(id));
            assert(!b1.contains(id));
        }
        if matches!(new_status, SenderStatus::Authorized) {
            proof {
                lemma_unique_push(a1, id);
            }
            self.authorized.push(id);
        } else if matches!(new_status, SenderStatus::BlackListed) {
            proof {
                lemma_unique_push(b1, id);
            }
            self.blacklisted.push(id);
        }
        proof {
            assert forall|i: int| 0 <= i < self.pb().len() implies !((#[trigger] self.pb()[i]).status
                is NotInPhonebook) by {
                if i != k {
                    assert(self.pb()[i] == pb0[i]);
                }
            }
            assert forall|x: u64|
                #![trigger self.auth_ids().contains(x)]
                #![trigger pb_status(self.pb(), x)]
                self.auth_ids().contains(x) <==> pb_status(self.pb(), x) is Authorized by {
                if x != id {
                    assert(a0.contains(x) <==> pb_status(pb0, x) is Authorized);
                    assert(a1.contains(x) == a0.contains(x));
                    assert(self.auth_ids().contains(x) == a1.contains(x));
                    assert(pb_status(self.pb(), x) == pb_status(pb0, x));
                }
            }
            assert forall|x: u64|
                #![trigger self.black_ids().contains(x)]
                #![trigger pb_status(self.pb(), x)]
                self.black_ids().contains(x) <==> pb_status(self.pb(), x) is BlackListed by {
                if x != id {
                    assert(b0.contains(x) <==> pb_status(pb0, x) is BlackListed);
                    assert(b1.contains(x) == b0.contains(x));
                    assert(self.black_ids().contains(x) == b1.contains(x));
                    assert(pb_status(self.pb(), x) == pb_status(pb0, x));
                }
            }
        }
        true
    }

    /// Revokes an identity's right to send: the identifier moves from the
    /// authorized set to the blacklisted set and its stored standing becomes
    /// `BlackListed`. Reports `false` — a no-op, nothing is mutated — when
    /// the identifier is not currently in the authorized set.
    pub fn blacklist(&mut self, id: u64) -> (moved: bool)
        requires
            old(self).wf(),
        ensures
            final(self).wf(),
            final(self).queue() == old(self).queue(),
            final(self).bound() == old(self).bound(),
            moved == old(self).auth_ids().contains(id),
            moved ==> {
                &&& !final(self).auth_ids().contains(id)
                &&& final(self).black_ids().contains(id)
                &&& final(self).status_of(id) is BlackListed
                &&& forall|x: u64| x != id ==> final(self).status_of(x) == old(self).status_of(x)
                &&& forall|x: u64|
                    x != id ==> (final(self).auth_ids().contains(x) == old(
                        self,
                    ).auth_ids().contains(x))
                &&& forall|x: u64|
                    x != id ==> (final(self).black_ids().contains(x) == old(
                        self,
                    ).black_ids().contains(x))
            },
            !moved ==> *final(self) == *old(self),
    {
        let st = self.get_sender_status(id);
        if st == SenderStatus::Authorized {
            let changed = self.change_sender_status(
                LookupKey::ById(id),
                SenderStatus::BlackListed,
            );
            proof {
                assert(changed);
            }
            true
        } else {
            false
        }
    }

    /// Revokes by plaintext name, as an operator types it: the name is
    /// digested and the identifier blacklisted. Reports `false` when the
    /// derived identifier is not currently authorized ("sender not found").
    pub fn add_to_blacklist(&mut self, identifier: String) -> (moved: bool)
        requires
            old(self).wf(),
        ensures
            final(self).wf(),
            final(self).queue() == old(self).queue(),
            final(self).bound() == old(self).bound(),
            moved == old(self).auth_ids().contains(spec_hash(identifier@)),
            moved ==> {
                &&& !final(self).auth_ids().contains(spec_hash(identifier@))
                &&& final(self).black_ids().contains(spec_hash(identifier@))
                &&& final(self).status_of(spec_hash(identifier@)) is BlackListed
                &&& forall|x: u64|
                    x != spec_hash(identifier@) ==> final(self).status_of(x) == old(
                        self,
                    ).status_of(x)
            },
            !moved ==> *final(self) == *old(self),
    {
        let id = Console::generate_id(identifier);
        self.blacklist(id)
    }

    /// The checked send: consults the registry at send time and refuses with
    /// `Unauthorized` unless the handle's identity is currently `Authorized`;
    /// an authorized message is enqueued at the back of the channel, or
    /// refused with `ChannelFull` when the bounded channel is at capacity.
    /// The registry itself never changes on a send.
    pub fn send(&mut self, handle: &ProducerHandle, msg: String) -> (r: Result<(), SendError>)
        requires
            old(self).wf(),
        ensures
            final(self).wf(),
            final(self).pb() == old(self).pb(),
            final(self).auth_ids() == old(self).auth_ids(),
            final(self).black_ids() == old(self).black_ids(),
            final(self).bound() == old(self).bound(),
            !old(self).send_allowed(handle.id) ==> r == Err::<(), SendError>(
                SendError::Unauthorized,
            ) && final(self).queue() == old(self).queue(),
            old(self).send_allowed(handle.id) && old(self).queue().len() < old(self).bound()
                ==> r == Ok::<(), SendError>(()) && final(self).queue() == old(self).queue().push(
                msg@,
            ),
            old(self).send_allowed(handle.id) && old(self).queue().len() >= old(self).bound()
                ==> r == Err::<(), SendError>(SendError::ChannelFull) && final(self).queue() == old(
                self,
            ).queue(),
    {
        let st = self.get_sender_status(handle.id);
        if st != SenderStatus::Authorized {
            return Err(SendError::Unauthorized);
        }
        if chan_try_push(&mut self.channel, msg) {
            Ok(())
        } else {
            Err(SendError::ChannelFull)
        }
    }

    /// Takes the oldest queued message off the channel; `None` reports an
    /// empty queue. The registry is untouched.
    pub fn recv_message(&mut self) -> (m: Option<String>)
        requires
            old(self).wf(),
        ensures
            final(self).wf(),
            final(self).pb() == old(self).pb(),
            final(self).auth_ids() == old(self).auth_ids(),
            final(self).black_ids() == old(self).black_ids(),
            final(self).bound() == old(self).bound(),
            old(self).queue().len() == 0 ==> m is None && final(self).queue() == old(
                self,
            ).queue(),
            old(self).queue().len() > 0 ==> (match m {
                Some(msg) => msg@ == old(self).queue()[0] && final(self).queue() == old(
                    self,
                ).queue().drop_first(),
                None => false,
            }),
    {
        chan_try_pop(&mut self.channel)
    }

    /// The consumer's drain: receives until the first sentinel or an empty
    /// queue, and returns what was delivered, oldest first. Every message
    /// enqueued before the first sentinel comes out, in order; the sentinel
    /// is consumed and everything behind it stays queued.
    pub fn drain_messages(&mut self) -> (out: Vec<String>)
        requires
            old(self).wf(),
        ensures
            final(self).wf(),
            final(self).pb() == old(self).pb(),
            final(self).auth_ids() == old(self).auth_ids(),
            final(self).black_ids() == old(self).black_ids(),
            final(self).bound() == old(self).bound(),
            out@.map_values(|m: String| m@) == deliverable(old(self).queue()),
            final(self).queue() == after_shutdown(old(self).queue()),
    {
        let ghost q0 = self.queue();
        let mut out: Vec<String> = Vec::new();
        loop
            invariant
                self.wf(),
                self.pb() == old(self).pb(),
                self.auth_ids() == old(self).auth_ids(),
                self.black_ids() == old(self).black_ids(),
                self.bound() == old(self).bound(),
                q0 == old(self).queue(),
                out@.len() <= q0.len(),
                self.queue() == q0.skip(out@.len() as int),
                forall|t: int|
                    0 <= t < out@.len() ==> (#[trigger] out@[t])@ == q0[t] && q0[t] != sentinel(),
            decreases self.queue().len(),
        {
            let ghost k = out@.len() as int;
            match self.recv_message() {
                None => {
                    proof {
                        assert(k == q0.len());
                        assert forall|t: int| 0 <= t < k implies q0[t] != sentinel() by {
                            assert((out@[t])@ == q0[t]);
                        }
                        lemma_deliverable_split(q0, k);
                        assert(out@.map_values(|m: String| m@) =~= deliverable(q0));
                        assert(self.queue() =~= Seq::<Seq<char>>::empty());
                    }
                    return out;
                },
                Some(msg) => {
                    proof {
                        assert(msg@ == q0.skip(k)[0]);
                        assert(q0.skip(k)[0] == q0[k]);
                    }
                    if crate::text::is_sentinel(&msg) {
                        proof {
                            assert forall|t: int| 0 <= t < k implies q0[t] != sentinel() by {
                                assert((out@[t])@ == q0[t]);
                            }
                            lemma_deliverable_split(q0, k);
                            assert(out@.map_values(|m: String| m@) =~= deliverable(q0));
                            assert(q0.skip(k).drop_first() =~= q0.skip(k + 1));
                        }
                        return out;
                    }
                    out.push(msg);
                    proof {
                        assert(q0.skip(k).drop_first() =~= q0.skip(k + 1));
                    }
                },
            }
        }
    }
}

/// The membership sets of a well-formed registry are disjoint: each set
/// mirrors one stored status, and no identity has two.
pub proof fn lemma_sets_disjoint(c: Console, id: u64)
    requires
        c.wf(),
        c.auth_ids().contains(id),
    ensures
        !c.black_ids().contains(id),
{
}

/// A blacklisted identity cannot send: its standing is not `Authorized`, so
/// the checked send consults the registry and answers `Unauthorized`.
pub proof fn lemma_blacklisted_cannot_send(c: Console, id: u64)
    requires
        c.status_of(id) is BlackListed,
    ensures
        !c.send_allowed(id),
{
}

/// Listing the authorized set is idempotent: the snapshot is a function of
/// the registry state alone, so two reads without an intervening mutation
/// return identical sets.
pub proof fn lemma_list_authorized_idempotent(c: Console, r1: Seq<u64>, r2: Seq<u64>)
    requires
        r1 == c.auth_ids(),
        r2 == c.auth_ids(),
    ensures
        r1 == r2,
{
}

impl Default for Console {
    /// Same construction as `init`: a fresh channel and an empty registry.
    fn default() -> (c: Console)
        ensures
            c.wf(),
            c.pb() == Seq::<PhonebookRecord>::empty(),
            c.auth_ids() == Seq::<u64>::empty(),
            c.black_ids() == Seq::<u64>::empty(),
            c.queue() == Seq::<Seq<char>>::empty(),
            c.bound() == CHANNEL_CAPACITY as nat,
    {
        Console::init()
    }
}

} // verus!

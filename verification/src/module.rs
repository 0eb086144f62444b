//! Module registry entries: a named consumer's three routing tables (by
//! update category, by message category, by command token), each mapping a
//! key to an ordered list of delivery queues, built by merging the declared
//! interests of the consumers registered under that name.

use vstd::prelude::*;
use crate::types::{
    MessageKind, UpdateKind, Update, kind_of_update, kind_of_content, message_of_update,
    spec_command_token, command_token,
};

verus! {

/// The queues a routing table registers for key `k`: the concatenation of
/// every matching entry's list, in entry order. An absent key registers the
/// empty list.
pub open spec fn tq<K>(s: Seq<(K, Seq<u64>)>, k: K) -> Seq<u64>
    decreases s.len(),
{
    if s.len() == 0 {
        Seq::empty()
    } else {
        tq(s.drop_last(), k) + (if s.last().0 == k {
            s.last().1
        } else {
            Seq::empty()
        })
    }
}

/// No key owns two entries.
pub open spec fn unique_keys<K>(s: Seq<(K, Seq<u64>)>) -> bool {
    forall|i: int, j: int| 0 <= i < j < s.len() ==> s[i].0 != s[j].0
}

/// The mathematical contents of a category-keyed table.
pub open spec fn table_view<K>(t: Seq<(K, Vec<u64>)>) -> Seq<(K, Seq<u64>)> {
    t.map_values(|e: (K, Vec<u64>)| (e.0, e.1@))
}

/// The mathematical contents of a command-keyed table.
pub open spec fn cmd_view(t: Seq<(String, Vec<u64>)>) -> Seq<(Seq<char>, Seq<u64>)> {
    t.map_values(|e: (String, Vec<u64>)| (e.0@, e.1@))
}

proof fn lemma_tq_push<K>(s: Seq<(K, Seq<u64>)>, e: (K, Seq<u64>), k: K)
    ensures
        tq(s.push(e), k) == tq(s, k) + (if e.0 == k {
            e.1
        } else {
            Seq::<u64>::empty()
        }),
{
    assert(s.push(e).drop_last() =~= s);
    assert(s.push(e).last() == e);
}

proof fn lemma_tq_append_empty(q: Seq<u64>)
    ensures
        q + Seq::<u64>::empty() == q,
{
    assert(q + Seq::<u64>::empty() =~= q);
}

/// Appending to the list of the last entry that holds a key appends to that
/// key's registered queues.
proof fn lemma_tq_update_last_match<K>(s: Seq<(K, Seq<u64>)>, i: int, qs: Seq<u64>, k: K)
    requires
        0 <= i < s.len(),
        forall|j: int| i < j < s.len() ==> s[j].0 != s[i].0,
    ensures
        tq(s.update(i, (s[i].0, s[i].1 + qs)), k) == tq(s, k) + (if k == s[i].0 {
            qs
        } else {
            Seq::<u64>::empty()
        }),
    decreases s.len(),
{
    let s2 = s.update(i, (s[i].0, s[i].1 + qs));
    if i == s.len() - 1 {
        assert(s2.drop_last() =~= s.drop_last());
        if k == s[i].0 {
            assert(tq(s.drop_last(), k) + (s[i].1 + qs) =~= (tq(s.drop_last(), k) + s[i].1)
                + qs);
        } else {
            lemma_tq_append_empty(tq(s, k));
        }
    } else {
        assert(s2.drop_last() =~= s.drop_last().update(i, (s[i].0, s[i].1 + qs)));
        assert(s.drop_last()[i] == s[i]);
        lemma_tq_update_last_match(s.drop_last(), i, qs, k);
        assert(s2.last() == s.last());
        assert(s.last().0 != s[i].0);
        let x = tq(s.drop_last(), k);
        let ci: Seq<u64> = if k == s[i].0 {
            qs
        } else {
            Seq::empty()
        };
        let cl: Seq<u64> = if s.last().0 == k {
            s.last().1
        } else {
            Seq::empty()
        };
        if k == s[i].0 {
            assert(cl == Seq::<u64>::empty());
            assert((x + ci) + cl =~= (x + cl) + ci);
        } else {
            assert(ci == Seq::<u64>::empty());
            assert((x + ci) + cl =~= (x + cl) + ci);
        }
        assert(tq(s2, k) == (x + ci) + cl);
        assert(tq(s, k) + ci == (x + cl) + ci);
    }
}

/// A key held by no entry registers no queues.
proof fn lemma_tq_absent<K>(s: Seq<(K, Seq<u64>)>, k: K)
    requires
        forall|i: int| 0 <= i < s.len() ==> s[i].0 != k,
    ensures
        tq(s, k) == Seq::<u64>::empty(),
    decreases s.len(),
{
    if s.len() > 0 {
        lemma_tq_absent(s.drop_last(), k);
        assert(tq(s, k) =~= Seq::<u64>::empty());
    }
}

/// With unique keys, the queues of a present key are its entry's list.
proof fn lemma_tq_found<K>(s: Seq<(K, Seq<u64>)>, i: int, k: K)
    requires
        0 <= i < s.len(),
        s[i].0 == k,
        unique_keys(s),
    ensures
        tq(s, k) == s[i].1,
    decreases s.len(),
{
    if i == s.len() - 1 {
        assert(forall|j: int| 0 <= j < s.drop_last().len() ==> s.drop_last()[j] == s[j]);
        lemma_tq_absent(s.drop_last(), k);
        assert(tq(s, k) =~= s[i].1);
    } else {
        assert(s.drop_last()[i] == s[i]);
        lemma_tq_found(s.drop_last(), i, k);
        assert(s.last().0 != k);
        lemma_tq_append_empty(tq(s.drop_last(), k));
    }
}

/// A copy of a queue list.
pub fn copy_queues(v: &Vec<u64>) -> (r: Vec<u64>)
    ensures
        r@ == v@,
{
    let mut r: Vec<u64> = Vec::new();
    let mut i: usize = 0;
    while i < v.len()
        invariant
            0 <= i <= v@.len(),
            r@ == v@.take(i as int),
        decreases v@.len() - i,
    {
        r.push(v[i]);
        proof {
            assert(r@ =~= v@.take(i + 1 as int));
        }
        i = i + 1;
    }
    proof {
        assert(v@.take(v@.len() as int) =~= v@);
    }
    r
}

/// Registers `qs` under `k`: a new key gets a fresh entry, a present key
/// has `qs` appended to its list, as the merge algorithm asks.
fn mk_add(t: &mut Vec<(MessageKind, Vec<u64>)>, k: MessageKind, qs: Vec<u64>)
    requires
        unique_keys(table_view(old(t)@)),
    ensures
        unique_keys(table_view(final(t)@)),
        forall|k2: MessageKind| #![all_triggers] tq(table_view(final(t)@), k2) == tq(
            table_view(old(t)@),
            k2,
        ) + (if k2 == k {
            qs@
        } else {
            Seq::<u64>::empty()
        }),
{
    let ghost qv = qs@;
    let mut i: usize = 0;
    while i < t.len()
        invariant
            0 <= i <= t@.len(),
            t@ == old(t)@,
            qs@ == qv,
            unique_keys(table_view(t@)),
            forall|j: int| 0 <= j < i ==> table_view(t@)[j].0 != k,
        decreases t@.len() - i,
    {
        if t[i].0 == k {
            let ghost t0 = t@;
            let pair = t.remove(i);
            let k0 = pair.0;
            let mut lst = pair.1;
            let ghost oldlst = lst@;
            let mut qs2 = qs;
            lst.append(&mut qs2);
            t.insert(i, (k0, lst));
            proof {
                let ov = table_view(old(t)@);
                assert(k0 == t0[i as int].0 && oldlst == t0[i as int].1@);
                assert(t@ =~= t0.update(i as int, (k0, lst)));
                assert(lst@ == oldlst + qv);
                assert forall|j: int| 0 <= j < t@.len() implies table_view(t@)[j] == ov.update(
                    i as int,
                    (k, ov[i as int].1 + qv),
                )[j] by {
                    assert(table_view(t@)[j] == (t@[j].0, t@[j].1@));
                }
                assert(table_view(t@) =~= ov.update(i as int, (k, ov[i as int].1 + qv)));
                assert(ov[i as int].0 == k);
                assert forall|k2: MessageKind| #![all_triggers]
                    tq(table_view(t@), k2) == tq(ov, k2) + (if k2 == k {
                        qv
                    } else {
                        Seq::<u64>::empty()
                    }) by {
                    lemma_tq_update_last_match(ov, i as int, qv, k2);
                }
            }
            return ;
        }
        i = i + 1;
    }
    t.push((k, qs));
    proof {
        let ov = table_view(old(t)@);
        assert(table_view(t@) =~= ov.push((k, qv)));
        assert forall|k2: MessageKind| #![all_triggers]
            tq(table_view(t@), k2) == tq(ov, k2) + (if k2 == k {
                qv
            } else {
                Seq::<u64>::empty()
            }) by {
            lemma_tq_push(ov, (k, qv), k2);
        }
    }
}

/// The queues registered under `k`, in registration order.
fn mk_get(t: &Vec<(MessageKind, Vec<u64>)>, k: MessageKind) -> (r: Vec<u64>)
    requires
        unique_keys(table_view(t@)),
    ensures
        r@ == tq(table_view(t@), k),
{
    let mut i: usize = 0;
    while i < t.len()
        invariant
            0 <= i <= t@.len(),
            unique_keys(table_view(t@)),
            forall|j: int| 0 <= j < i ==> table_view(t@)[j].0 != k,
        decreases t@.len() - i,
    {
        if t[i].0 == k {
            let r = copy_queues(&t[i].1);
            proof {
                lemma_tq_found(table_view(t@), i as int, k);
            }
            return r;
        }
        i = i + 1;
    }
    proof {
        lemma_tq_absent(table_view(t@), k);
    }
    Vec::new()
}

/// As `mk_add`, for the update-kind table.
fn uk_add(t: &mut Vec<(UpdateKind, Vec<u64>)>, k: UpdateKind, qs: Vec<u64>)
    requires
        unique_keys(table_view(old(t)@)),
    ensures
        unique_keys(table_view(final(t)@)),
        forall|k2: UpdateKind| #![all_triggers] tq(table_view(final(t)@), k2) == tq(
            table_view(old(t)@),
            k2,
        ) + (if k2 == k {
            qs@
        } else {
            Seq::<u64>::empty()
        }),
{
    let ghost qv = qs@;
    let mut i: usize = 0;
    while i < t.len()
        invariant
            0 <= i <= t@.len(),
            t@ == old(t)@,
            qs@ == qv,
            unique_keys(table_view(t@)),
            forall|j: int| 0 <= j < i ==> table_view(t@)[j].0 != k,
        decreases t@.len() - i,
    {
        if t[i].0 == k {
            let ghost t0 = t@;
            let pair = t.remove(i);
            let k0 = pair.0;
            let mut lst = pair.1;
            let ghost oldlst = lst@;
            let mut qs2 = qs;
            lst.append(&mut qs2);
            t.insert(i, (k0, lst));
            proof {
                let ov = table_view(old(t)@);
                assert(k0 == t0[i as int].0 && oldlst == t0[i as int].1@);
                assert(t@ =~= t0.update(i as int, (k0, lst)));
                assert(lst@ == oldlst + qv);
                assert forall|j: int| 0 <= j < t@.len() implies table_view(t@)[j] == ov.update(
                    i as int,
                    (k, ov[i as int].1 + qv),
                )[j] by {
                    assert(table_view(t@)[j] == (t@[j].0, t@[j].1@));
                }
                assert(table_view(t@) =~= ov.update(i as int, (k, ov[i as int].1 + qv)));
                assert(ov[i as int].0 == k);
                assert forall|k2: UpdateKind| #![all_triggers]
                    tq(table_view(t@), k2) == tq(ov, k2) + (if k2 == k {
                        qv
                    } else {
                        Seq::<u64>::empty()
                    }) by {
                    lemma_tq_update_last_match(ov, i as int, qv, k2);
                }
            }
            return ;
        }
        i = i + 1;
    }
    t.push((k, qs));
    proof {
        let ov = table_view(old(t)@);
        assert(table_view(t@) =~= ov.push((k, qv)));
        assert forall|k2: UpdateKind| #![all_triggers]
            tq(table_view(t@), k2) == tq(ov, k2) + (if k2 == k {
                qv
            } else {
                Seq::<u64>::empty()
            }) by {
            lemma_tq_push(ov, (k, qv), k2);
        }
    }
}

/// As `mk_get`, for the update-kind table.
fn uk_get(t: &Vec<(UpdateKind, Vec<u64>)>, k: UpdateKind) -> (r: Vec<u64>)
    requires
        unique_keys(table_view(t@)),
    ensures
        r@ == tq(table_view(t@), k),
{
    let mut i: usize = 0;
    while i < t.len()
        invariant
            0 <= i <= t@.len(),
            unique_keys(table_view(t@)),
            forall|j: int| 0 <= j < i ==> table_view(t@)[j].0 != k,
        decreases t@.len() - i,
    {
        if t[i].0 == k {
            let r = copy_queues(&t[i].1);
            proof {
                lemma_tq_found(table_view(t@), i as int, k);
            }
            return r;
        }
        i = i + 1;
    }
    proof {
        lemma_tq_absent(table_view(t@), k);
    }
    Vec::new()
}

/// As `mk_add`, for the command table, keyed by the token's characters.
fn cmd_add(t: &mut Vec<(String, Vec<u64>)>, k: String, qs: Vec<u64>)
    requires
        unique_keys(cmd_view(old(t)@)),
    ensures
        unique_keys(cmd_view(final(t)@)),
        forall|k2: Seq<char>| #![all_triggers] tq(cmd_view(final(t)@), k2) == tq(
            cmd_view(old(t)@),
            k2,
        ) + (if k2 == k@ {
            qs@
        } else {
            Seq::<u64>::empty()
        }),
{
    let ghost qv = qs@;
    let ghost kv = k@;
    let mut i: usize = 0;
    while i < t.len()
        invariant
            0 <= i <= t@.len(),
            t@ == old(t)@,
            qs@ == qv,
            k@ == kv,
            unique_keys(cmd_view(t@)),
            forall|j: int| 0 <= j < i ==> cmd_view(t@)[j].0 != kv,
        decreases t@.len() - i,
    {
        if t[i].0.eq(&k) {
            let ghost t0 = t@;
            let pair = t.remove(i);
            let k0 = pair.0;
            let mut lst = pair.1;
            let ghost oldlst = lst@;
            let mut qs2 = qs;
            lst.append(&mut qs2);
            t.insert(i, (k0, lst));
            proof {
                let ov = cmd_view(old(t)@);
                assert(k0@ == t0[i as int].0@ && oldlst == t0[i as int].1@);
                assert(t@ =~= t0.update(i as int, (k0, lst)));
                assert(lst@ == oldlst + qv);
                assert forall|j: int| 0 <= j < t@.len() implies cmd_view(t@)[j] == ov.update(
                    i as int,
                    (kv, ov[i as int].1 + qv),
                )[j] by {
                    assert(cmd_view(t@)[j] == (t@[j].0@, t@[j].1@));
                }
                assert(cmd_view(t@) =~= ov.update(i as int, (kv, ov[i as int].1 + qv)));
                assert(ov[i as int].0 == kv);
                assert forall|k2: Seq<char>| #![all_triggers]
                    tq(cmd_view(t@), k2) == tq(ov, k2) + (if k2 == kv {
                        qv
                    } else {
                        Seq::<u64>::empty()
                    }) by {
                    lemma_tq_update_last_match(ov, i as int, qv, k2);
                }
            }
            return ;
        }
        i = i + 1;
    }
    t.push((k, qs));
    proof {
        let ov = cmd_view(old(t)@);
        assert(cmd_view(t@) =~= ov.push((kv, qv)));
        assert forall|k2: Seq<char>| #![all_triggers]
            tq(cmd_view(t@), k2) == tq(ov, k2) + (if k2 == kv {
                qv
            } else {
                Seq::<u64>::empty()
            }) by {
            lemma_tq_push(ov, (kv, qv), k2);
        }
    }
}

/// As `mk_get`, for the command table.
fn cmd_get(t: &Vec<(String, Vec<u64>)>, k: &String) -> (r: Vec<u64>)
    requires
        unique_keys(cmd_view(t@)),
    ensures
        r@ == tq(cmd_view(t@), k@),
{
    let mut i: usize = 0;
    while i < t.len()
        invariant
            0 <= i <= t@.len(),
            unique_keys(cmd_view(t@)),
            forall|j: int| 0 <= j < i ==> cmd_view(t@)[j].0 != k@,
        decreases t@.len() - i,
    {
        if t[i].0.eq(k) {
            let r = copy_queues(&t[i].1);
            proof {
                lemma_tq_found(cmd_view(t@), i as int, k@);
            }
            return r;
        }
        i = i + 1;
    }
    proof {
        lemma_tq_absent(cmd_view(t@), k@);
    }
    Vec::new()
}

/// One step of a table walked from the front.
proof fn lemma_tq_take_step<K>(s: Seq<(K, Seq<u64>)>, i: int, k: K)
    requires
        0 <= i < s.len(),
    ensures
        tq(s.take(i + 1), k) == tq(s.take(i), k) + (if s[i].0 == k {
            s[i].1
        } else {
            Seq::<u64>::empty()
        }),
{
    assert(s.take(i + 1).drop_last() =~= s.take(i));
    assert(s.take(i + 1).last() == s[i]);
}

/// A consumer's declared interests: for each of the three kinds, (key,
/// queue list) pairs in declaration order. Supplying no entries for a kind
/// is valid.
pub struct Interests {
    pub message_kind: Vec<(MessageKind, Vec<u64>)>,
    pub update_kind: Vec<(UpdateKind, Vec<u64>)>,
    pub command: Vec<(String, Vec<u64>)>,
}

impl Interests {
    pub open spec fn msg_q(self, k: MessageKind) -> Seq<u64> {
        tq(table_view(self.message_kind@), k)
    }

    pub open spec fn upd_q(self, k: UpdateKind) -> Seq<u64> {
        tq(table_view(self.update_kind@), k)
    }

    pub open spec fn cmd_q(self, k: Seq<char>) -> Seq<u64> {
        tq(cmd_view(self.command@), k)
    }
}

/// The subscriber contract: a consumer declares, for each of the three
/// interest kinds, the keys it wants and the delivery queues it owns for
/// them. Every kind defaults to no entries.
pub trait Subscriber {
    fn by_message_kind(&self) -> Vec<(MessageKind, Vec<u64>)> {
        Vec::new()
    }

    fn by_update_kind(&self) -> Vec<(UpdateKind, Vec<u64>)> {
        Vec::new()
    }

    fn by_command(&self) -> Vec<(String, Vec<u64>)> {
        Vec::new()
    }
}

/// A module registry entry: three routing tables with unique keys, each
/// mapping a key to the ordered list of delivery queues registered for it.
pub struct Module {
    pub message_kind: Vec<(MessageKind, Vec<u64>)>,
    pub update_kind: Vec<(UpdateKind, Vec<u64>)>,
    pub command: Vec<(String, Vec<u64>)>,
}

/// Where a delivered payload is drawn from: the update's inner payload for
/// update-kind matches, the wrapped message for message-kind and command
/// matches.
#[derive(Clone, Copy, PartialEq, Eq, Structural, Debug)]
pub enum PayloadKind {
    Update,
    Message,
}

/// One owed delivery: the queue to enqueue on and what to enqueue.
#[derive(Clone, Copy, PartialEq, Eq, Structural, Debug)]
pub struct Delivery {
    pub queue: u64,
    pub payload: PayloadKind,
}

/// The deliveries owed to a list of queues, in queue-list order.
pub open spec fn deliveries_of(qs: Seq<u64>, p: PayloadKind) -> Seq<Delivery> {
    qs.map_values(|q: u64| Delivery { queue: q, payload: p })
}

/// What one module owes for one update: its update-kind queues first, then,
/// for a wrapped message, its message-kind queues, then its command queues.
pub open spec fn spec_handle(m: Module, u: Update) -> Seq<Delivery> {
    let up = deliveries_of(m.upd_queues(kind_of_update(u)), PayloadKind::Update);
    match message_of_update(u) {
        Some(msg) => {
            let mp = deliveries_of(m.msg_queues(kind_of_content(msg.content)), PayloadKind::Message);
            let cp = match spec_command_token(msg.content) {
                Some(t) => deliveries_of(m.cmd_queues(t), PayloadKind::Message),
                None => Seq::<Delivery>::empty(),
            };
            up + mp + cp
        },
        None => up,
    }
}

fn push_deliveries(out: &mut Vec<Delivery>, qs: &Vec<u64>, p: PayloadKind)
    ensures
        final(out)@ == old(out)@ + deliveries_of(qs@, p),
{
    let mut i: usize = 0;
    while i < qs.len()
        invariant
            0 <= i <= qs@.len(),
            out@ == old(out)@ + deliveries_of(qs@.take(i as int), p),
        decreases qs@.len() - i,
    {
        out.push(Delivery { queue: qs[i], payload: p });
        proof {
            assert(deliveries_of(qs@.take(i + 1 as int), p) =~= deliveries_of(
                qs@.take(i as int),
                p,
            ).push(Delivery { queue: qs@[i as int], payload: p }));
            assert(out@ =~= old(out)@ + deliveries_of(qs@.take(i + 1 as int), p));
        }
        i = i + 1;
    }
    proof {
        assert(qs@.take(qs@.len() as int) =~= qs@);
    }
}

impl Module {
    pub open spec fn wf(self) -> bool {
        &&& unique_keys(table_view(self.message_kind@))
        &&& unique_keys(table_view(self.update_kind@))
        &&& unique_keys(cmd_view(self.command@))
    }

    /// The queues this module registers for a message category.
    pub open spec fn msg_queues(self, k: MessageKind) -> Seq<u64> {
        tq(table_view(self.message_kind@), k)
    }

    /// The queues this module registers for an update category.
    pub open spec fn upd_queues(self, k: UpdateKind) -> Seq<u64> {
        tq(table_view(self.update_kind@), k)
    }

    /// The queues this module registers for a command token.
    pub open spec fn cmd_queues(self, tok: Seq<char>) -> Seq<u64> {
        tq(cmd_view(self.command@), tok)
    }

    /// A module with no interests.
    pub fn empty() -> (m: Module)
        ensures
            m.wf(),
            forall|k: MessageKind| m.msg_queues(k) == Seq::<u64>::empty(),
            forall|k: UpdateKind| m.upd_queues(k) == Seq::<u64>::empty(),
            forall|k: Seq<char>| m.cmd_queues(k) == Seq::<u64>::empty(),
    {
        let m = Module { message_kind: Vec::new(), update_kind: Vec::new(), command: Vec::new() };
        proof {
            assert(table_view(m.message_kind@).len() == 0);
            assert(table_view(m.update_kind@).len() == 0);
            assert(cmd_view(m.command@).len() == 0);
        }
        m
    }

    /// Merges one consumer's interests into the module. Per key and kind,
    /// a new key is inserted and a present key's queue list is extended, so
    /// each key's queues are the old ones followed by the consumer's, in
    /// declaration order. The merge never fails.
    pub fn merge(&mut self, sub: &Interests)
        requires
            old(self).wf(),
        ensures
            final(self).wf(),
            forall|k: MessageKind| #![all_triggers] final(self).msg_queues(k) == old(
                self,
            ).msg_queues(k) + sub.msg_q(k),
            forall|k: UpdateKind| #![all_triggers] final(self).upd_queues(k) == old(
                self,
            ).upd_queues(k) + sub.upd_q(k),
            forall|k: Seq<char>| #![all_triggers] final(self).cmd_queues(k) == old(
                self,
            ).cmd_queues(k) + sub.cmd_q(k),
    {
        let mut i: usize = 0;
        while i < sub.message_kind.len()
            invariant
                0 <= i <= sub.message_kind@.len(),
                self.wf(),
                self.update_kind@ == old(self).update_kind@,
                self.command@ == old(self).command@,
                forall|k: MessageKind| #![all_triggers] self.msg_queues(k) == old(
                    self,
                ).msg_queues(k) + tq(table_view(sub.message_kind@).take(i as int), k),
            decreases sub.message_kind@.len() - i,
        {
            let entry = &sub.message_kind[i];
            let qs = copy_queues(&entry.1);
            mk_add(&mut self.message_kind, entry.0, qs);
            proof {
                let sv = table_view(sub.message_kind@);
                assert forall|k: MessageKind| #![all_triggers]
                    self.msg_queues(k) == old(self).msg_queues(k) + tq(
                        sv.take(i + 1 as int),
                        k,
                    ) by {
                    lemma_tq_take_step(sv, i as int, k);
                    assert(sv[i as int] == (sub.message_kind@[i as int].0,
                        sub.message_kind@[i as int].1@));
                    assert(old(self).msg_queues(k) + tq(sv.take(i + 1 as int), k) =~= (old(
                        self,
                    ).msg_queues(k) + tq(sv.take(i as int), k)) + (if sv[i as int].0 == k {
                        sv[i as int].1
                    } else {
                        Seq::<u64>::empty()
                    }));
                }
            }
            i = i + 1;
        }
        proof {
            assert(table_view(sub.message_kind@).take(sub.message_kind@.len() as int)
                =~= table_view(sub.message_kind@));
        }
        let mut i: usize = 0;
        while i < sub.update_kind.len()
            invariant
                0 <= i <= sub.update_kind@.len(),
                self.wf(),
                self.command@ == old(self).command@,
                forall|k: MessageKind| #![all_triggers] self.msg_queues(k) == old(
                    self,
                ).msg_queues(k) + sub.msg_q(k),
                forall|k: UpdateKind| #![all_triggers] self.upd_queues(k) == old(
                    self,
                ).upd_queues(k) + tq(table_view(sub.update_kind@).take(i as int), k),
            decreases sub.update_kind@.len() - i,
        {
            let entry = &sub.update_kind[i];
            let qs = copy_queues(&entry.1);
            uk_add(&mut self.update_kind, entry.0, qs);
            proof {
                let sv = table_view(sub.update_kind@);
                assert forall|k: UpdateKind| #![all_triggers]
                    self.upd_queues(k) == old(self).upd_queues(k) + tq(
                        sv.take(i + 1 as int),
                        k,
                    ) by {
                    lemma_tq_take_step(sv, i as int, k);
                    assert(sv[i as int] == (sub.update_kind@[i as int].0,
                        sub.update_kind@[i as int].1@));
                    assert(old(self).upd_queues(k) + tq(sv.take(i + 1 as int), k) =~= (old(
                        self,
                    ).upd_queues(k) + tq(sv.take(i as int), k)) + (if sv[i as int].0 == k {
                        sv[i as int].1
                    } else {
                        Seq::<u64>::empty()
                    }));
                }
            }
            i = i + 1;
        }
        proof {
            assert(table_view(sub.update_kind@).take(sub.update_kind@.len() as int)
                =~= table_view(sub.update_kind@));
        }
        let mut i: usize = 0;
        while i < sub.command.len()
            invariant
                0 <= i <= sub.command@.len(),
                self.wf(),
                forall|k: MessageKind| #![all_triggers] self.msg_queues(k) == old(
                    self,
                ).msg_queues(k) + sub.msg_q(k),
                forall|k: UpdateKind| #![all_triggers] self.upd_queues(k) == old(
                    self,
                ).upd_queues(k) + sub.upd_q(k),
                forall|k: Seq<char>| #![all_triggers] self.cmd_queues(k) == old(
                    self,
                ).cmd_queues(k) + tq(cmd_view(sub.command@).take(i as int), k),
            decreases sub.command@.len() - i,
        {
            let entry = &sub.command[i];
            let qs = copy_queues(&entry.1);
            let key = entry.0.clone();
            cmd_add(&mut self.command, key, qs);
            proof {
                let sv = cmd_view(sub.command@);
                assert forall|k: Seq<char>| #![all_triggers]
                    self.cmd_queues(k) == old(self).cmd_queues(k) + tq(
                        sv.take(i + 1 as int),
                        k,
                    ) by {
                    lemma_tq_take_step(sv, i as int, k);
                    assert(sv[i as int] == (sub.command@[i as int].0@, sub.command@[i as int].1@));
                    assert(old(self).cmd_queues(k) + tq(sv.take(i + 1 as int), k) =~= (old(
                        self,
                    ).cmd_queues(k) + tq(sv.take(i as int), k)) + (if sv[i as int].0 == k {
                        sv[i as int].1
                    } else {
                        Seq::<u64>::empty()
                    }));
                }
            }
            i = i + 1;
        }
        proof {
            assert(cmd_view(sub.command@).take(sub.command@.len() as int) =~= cmd_view(
                sub.command@,
            ));
        }
    }

    /// The module a single consumer's interests build, starting empty.
    pub fn from_interests(sub: &Interests) -> (m: Module)
        ensures
            m.wf(),
            forall|k: MessageKind| #![all_triggers] m.msg_queues(k) == sub.msg_q(k),
            forall|k: UpdateKind| #![all_triggers] m.upd_queues(k) == sub.upd_q(k),
            forall|k: Seq<char>| #![all_triggers] m.cmd_queues(k) == sub.cmd_q(k),
    {
        let mut m = Module::empty();
        m.merge(sub);
        proof {
            assert(forall|k: MessageKind| #![all_triggers]
                m.msg_queues(k) =~= sub.msg_q(k));
            assert(forall|k: UpdateKind| #![all_triggers]
                m.upd_queues(k) =~= sub.upd_q(k));
            assert(forall|k: Seq<char>| #![all_triggers]
                m.cmd_queues(k) =~= sub.cmd_q(k));
        }
        m
    }

    /// The module a subscriber's declared interests build.
    pub fn from<T: Subscriber>(sub: &T) -> (m: Module)
        ensures
            m.wf(),
    {
        let interests = Interests {
            message_kind: sub.by_message_kind(),
            update_kind: sub.by_update_kind(),
            command: sub.by_command(),
        };
        Module::from_interests(&interests)
    }

    /// Computes the deliveries one update owes from this module: the
    /// update-kind queues first, then, for a wrapped message, the
    /// message-kind queues, then the command queues, each in registration
    /// order.
    pub fn handle(&self, u: &Update) -> (r: Vec<Delivery>)
        requires
            self.wf(),
        ensures
            r@ == spec_handle(*self, *u),
    {
        let mut out: Vec<Delivery> = Vec::new();
        let uk = UpdateKind::from(u);
        let qs = uk_get(&self.update_kind, uk);
        push_deliveries(&mut out, &qs, PayloadKind::Update);
        match u {
            Update::Message(m) | Update::EditedMessage(m) => {
                let mk = MessageKind::from(&m.content);
                let qs2 = mk_get(&self.message_kind, mk);
                push_deliveries(&mut out, &qs2, PayloadKind::Message);
                match command_token(&m.content) {
                    Some(tok) => {
                        let qs3 = cmd_get(&self.command, &tok);
                        push_deliveries(&mut out, &qs3, PayloadKind::Message);
                    },
                    None => {
                        proof {
                            assert(out@ =~= out@ + Seq::<Delivery>::empty());
                        }
                    },
                }
            },
            _ => {},
        }
        out
    }
}

/// The queues a sequence of consumers registers for a message category,
/// concatenated in registration order.
pub open spec fn consumers_msg_q(cs: Seq<Interests>, k: MessageKind) -> Seq<u64>
    decreases cs.len(),
{
    if cs.len() == 0 {
        Seq::empty()
    } else {
        consumers_msg_q(cs.drop_last(), k) + cs.last().msg_q(k)
    }
}

/// As `consumers_msg_q`, for update categories.
pub open spec fn consumers_upd_q(cs: Seq<Interests>, k: UpdateKind) -> Seq<u64>
    decreases cs.len(),
{
    if cs.len() == 0 {
        Seq::empty()
    } else {
        consumers_upd_q(cs.drop_last(), k) + cs.last().upd_q(k)
    }
}

/// As `consumers_msg_q`, for command tokens.
pub open spec fn consumers_cmd_q(cs: Seq<Interests>, k: Seq<char>) -> Seq<u64>
    decreases cs.len(),
{
    if cs.len() == 0 {
        Seq::empty()
    } else {
        consumers_cmd_q(cs.drop_last(), k) + cs.last().cmd_q(k)
    }
}

impl Module {
    /// Builds a module from an ordered sequence of consumers registered
    /// under one name: per key, the queue lists are the concatenation of
    /// the consumers' lists in registration order.
    pub fn build(consumers: &Vec<Interests>) -> (m: Module)
        ensures
            m.wf(),
            forall|k: MessageKind| #![all_triggers] m.msg_queues(k) == consumers_msg_q(
                consumers@,
                k,
            ),
            forall|k: UpdateKind| #![all_triggers] m.upd_queues(k) == consumers_upd_q(
                consumers@,
                k,
            ),
            forall|k: Seq<char>| #![all_triggers] m.cmd_queues(k) == consumers_cmd_q(
                consumers@,
                k,
            ),
    {
        let mut m = Module::empty();
        let mut i: usize = 0;
        while i < consumers.len()
            invariant
                0 <= i <= consumers@.len(),
                m.wf(),
                forall|k: MessageKind| #![all_triggers] m.msg_queues(k) == consumers_msg_q(
                    consumers@.take(i as int),
                    k,
                ),
                forall|k: UpdateKind| #![all_triggers] m.upd_queues(k) == consumers_upd_q(
                    consumers@.take(i as int),
                    k,
                ),
                forall|k: Seq<char>| #![all_triggers] m.cmd_queues(k) == consumers_cmd_q(
                    consumers@.take(i as int),
                    k,
                ),
            decreases consumers@.len() - i,
        {
            m.merge(&consumers[i]);
            proof {
                let cv = consumers@;
                assert(cv.take(i + 1 as int).drop_last() =~= cv.take(i as int));
                assert(cv.take(i + 1 as int).last() == cv[i as int]);
            }
            i = i + 1;
        }
        proof {
            assert(consumers@.take(consumers@.len() as int) =~= consumers@);
        }
        m
    }
}

/// Module merge is associative and order-preserving per key: the queues a
/// module built from the consumer sequence `c1 + c2` registers for any key
/// equal the queues from `c1` followed by the queues from `c2`, for each of
/// the three interest kinds.
pub proof fn lemma_merge_order_preserving(c1: Seq<Interests>, c2: Seq<Interests>)
    ensures
        forall|k: MessageKind| #![all_triggers] consumers_msg_q(c1 + c2, k) == consumers_msg_q(
            c1,
            k,
        ) + consumers_msg_q(c2, k),
        forall|k: UpdateKind| #![all_triggers] consumers_upd_q(c1 + c2, k) == consumers_upd_q(
            c1,
            k,
        ) + consumers_upd_q(c2, k),
        forall|k: Seq<char>| #![all_triggers] consumers_cmd_q(c1 + c2, k) == consumers_cmd_q(
            c1,
            k,
        ) + consumers_cmd_q(c2, k),
    decreases c2.len(),
{
    if c2.len() == 0 {
        assert(c1 + c2 =~= c1);
        assert forall|k: MessageKind| #![all_triggers]
            consumers_msg_q(c1 + c2, k) == consumers_msg_q(c1, k) + consumers_msg_q(c2, k) by {
            assert(consumers_msg_q(c1, k) + Seq::<u64>::empty() =~= consumers_msg_q(c1, k));
        }
        assert forall|k: UpdateKind| #![all_triggers]
            consumers_upd_q(c1 + c2, k) == consumers_upd_q(c1, k) + consumers_upd_q(c2, k) by {
            assert(consumers_upd_q(c1, k) + Seq::<u64>::empty() =~= consumers_upd_q(c1, k));
        }
        assert forall|k: Seq<char>| #![all_triggers]
            consumers_cmd_q(c1 + c2, k) == consumers_cmd_q(c1, k) + consumers_cmd_q(c2, k) by {
            assert(consumers_cmd_q(c1, k) + Seq::<u64>::empty() =~= consumers_cmd_q(c1, k));
        }
    } else {
        lemma_merge_order_preserving(c1, c2.drop_last());
        assert((c1 + c2).drop_last() =~= c1 + c2.drop_last());
        assert((c1 + c2).last() == c2.last());
        assert forall|k: MessageKind| #![all_triggers]
            consumers_msg_q(c1 + c2, k) == consumers_msg_q(c1, k) + consumers_msg_q(c2, k) by {
            assert((consumers_msg_q(c1, k) + consumers_msg_q(c2.drop_last(), k)) + c2.last().msg_q(
                k,
            ) =~= consumers_msg_q(c1, k) + (consumers_msg_q(c2.drop_last(), k) + c2.last().msg_q(
                k,
            )));
        }
        assert forall|k: UpdateKind| #![all_triggers]
            consumers_upd_q(c1 + c2, k) == consumers_upd_q(c1, k) + consumers_upd_q(c2, k) by {
            assert((consumers_upd_q(c1, k) + consumers_upd_q(c2.drop_last(), k))
                + c2.last().upd_q(k) =~= consumers_upd_q(c1, k) + (consumers_upd_q(
                c2.drop_last(),
                k,
            ) + c2.last().upd_q(k)));
        }
        assert forall|k: Seq<char>| #![all_triggers]
            consumers_cmd_q(c1 + c2, k) == consumers_cmd_q(c1, k) + consumers_cmd_q(c2, k) by {
            assert((consumers_cmd_q(c1, k) + consumers_cmd_q(c2.drop_last(), k))
                + c2.last().cmd_q(k) =~= consumers_cmd_q(c1, k) + (consumers_cmd_q(
                c2.drop_last(),
                k,
            ) + c2.last().cmd_q(k)));
        }
    }
}

} // verus!

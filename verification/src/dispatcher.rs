//! The dispatcher: owns the global module registry (name to module), the
//! derived per-chat active-module index and the enablement store handle;
//! classifies each update, runs admin-command interception, and routes the
//! update to every active module for its chat (or to every global module
//! for non-chat updates).

use vstd::prelude::*;
use crate::module::{Module, Subscriber, Delivery, spec_handle};
use crate::store::{Modules, ModulesError};
use crate::text;
use crate::types::{MessageContent, Update, message_of_update, spec_command_token};

verus! {

/// First-match association lookup in a (key, value) sequence.
pub open spec fn assoc<K, V>(s: Seq<(K, V)>, k: K) -> Option<V>
    decreases s.len(),
{
    if s.len() == 0 {
        None
    } else if s[0].0 == k {
        Some(s[0].1)
    } else {
        assoc(s.drop_first(), k)
    }
}

pub proof fn lemma_assoc_found<K, V>(s: Seq<(K, V)>, i: int, k: K)
    requires
        0 <= i < s.len(),
        s[i].0 == k,
        forall|j: int| 0 <= j < i ==> (#[trigger] s[j]).0 != k,
    ensures
        assoc(s, k) == Some(s[i].1),
    decreases i,
{
    if i > 0 {
        lemma_assoc_found(s.drop_first(), i - 1, k);
    }
}

pub proof fn lemma_assoc_absent<K, V>(s: Seq<(K, V)>, k: K)
    requires
        forall|i: int| 0 <= i < s.len() ==> (#[trigger] s[i]).0 != k,
    ensures
        assoc(s, k) is None,
    decreases s.len(),
{
    if s.len() > 0 {
        lemma_assoc_absent(s.drop_first(), k);
    }
}

pub proof fn lemma_assoc_push<K, V>(s: Seq<(K, V)>, e: (K, V), k: K)
    ensures
        assoc(s.push(e), k) == (if assoc(s, k) is Some {
            assoc(s, k)
        } else if e.0 == k {
            Some(e.1)
        } else {
            None::<V>
        }),
    decreases s.len(),
{
    if s.len() == 0 {
        assert(s.push(e)[0] == e);
        if e.0 != k {
            assert(s.push(e).drop_first() =~= s);
        }
    } else {
        assert(s.push(e)[0] == s[0]);
        if s[0].0 != k {
            assert(s.push(e).drop_first() =~= s.drop_first().push(e));
            lemma_assoc_push(s.drop_first(), e, k);
        }
    }
}

/// Updating the value of the first entry that holds a key changes only that
/// key's association.
pub proof fn lemma_assoc_update<K, V>(s: Seq<(K, V)>, i: int, v2: V, k: K)
    requires
        0 <= i < s.len(),
        forall|j: int| 0 <= j < i ==> (#[trigger] s[j]).0 != s[i].0,
    ensures
        assoc(s.update(i, (s[i].0, v2)), k) == (if k == s[i].0 {
            Some(v2)
        } else {
            assoc(s, k)
        }),
    decreases i,
{
    let s2 = s.update(i, (s[i].0, v2));
    if i == 0 {
        assert(s2[0] == (s[0].0, v2));
        if k != s[0].0 {
            assert(s2.drop_first() =~= s.drop_first());
        }
    } else {
        assert(s2[0] == s[0]);
        assert(s[0].0 != s[i].0);
        if s[0].0 != k {
            assert(s2.drop_first() =~= s.drop_first().update(i - 1, (s[i].0, v2)));
            assert(s.drop_first()[i - 1] == s[i]);
            lemma_assoc_update(s.drop_first(), i - 1, v2, k);
        }
    }
}

/// Removing the only entry of one key leaves every other key's
/// association unchanged.
pub proof fn lemma_assoc_remove<K, V>(s: Seq<(K, V)>, i: int, k2: K)
    requires
        0 <= i < s.len(),
        k2 != s[i].0,
    ensures
        assoc(s.remove(i), k2) == assoc(s, k2),
    decreases i,
{
    if i == 0 {
        assert(s.remove(0) =~= s.drop_first());
    } else {
        assert(s.remove(i)[0] == s[0]);
        if s[0].0 != k2 {
            assert(s.remove(i).drop_first() =~= s.drop_first().remove(i - 1));
            assert(s.drop_first()[i - 1] == s[i]);
            lemma_assoc_remove(s.drop_first(), i - 1, k2);
        }
    }
}

pub proof fn lemma_push_contains<A>(l: Seq<A>, x: A, y: A)
    ensures
        l.push(x).contains(y) == (l.contains(y) || x == y),
{
    if l.contains(y) {
        let i = choose|i: int| 0 <= i < l.len() && l[i] == y;
        assert(l.push(x)[i] == y);
    }
    if x == y {
        assert(l.push(x)[l.len() as int] == y);
    }
    if l.push(x).contains(y) {
        let i = choose|i: int| 0 <= i < l.push(x).len() && l.push(x)[i] == y;
        if i < l.len() {
            assert(l[i] == y);
        }
    }
}

/// Removing a value from a duplicate-free sequence removes it entirely and
/// keeps the sequence duplicate-free.
pub proof fn lemma_remove_value_gone<A>(l: Seq<A>, n: A)
    requires
        l.no_duplicates(),
    ensures
        !l.remove_value(n).contains(n),
        l.remove_value(n).no_duplicates(),
{
    l.index_of_first_ensures(n);
    match l.index_of_first(n) {
        Some(i) => {
            let l2 = l.remove(i);
            assert forall|j: int| 0 <= j < l2.len() implies l2[j] != n by {
                if j < i {
                } else {
                    assert(l2[j] == l[j + 1]);
                }
            }
            if l2.contains(n) {
                let j = choose|j: int| 0 <= j < l2.len() && l2[j] == n;
            }
            assert forall|p: int, q: int| 0 <= p < q < l2.len() implies l2[p] != l2[q] by {
                let p2: int = if p < i {
                    p
                } else {
                    p + 1
                };
                let q2: int = if q < i {
                    q
                } else {
                    q + 1
                };
                assert(l2[p] == l[p2] && l2[q] == l[q2]);
            }
        },
        None => {},
    }
}

/// The names a chat's active set holds after enabling a module: unchanged
/// if already present, else appended.
pub open spec fn spec_enable_names(l: Seq<Seq<char>>, n: Seq<char>) -> Seq<Seq<char>> {
    if l.contains(n) {
        l
    } else {
        l.push(n)
    }
}

/// The names a chat's active set holds after disabling a module: the
/// module's name removed, with no error if it was absent.
pub open spec fn spec_disable_names(l: Seq<Seq<char>>, n: Seq<char>) -> Seq<Seq<char>> {
    l.remove_value(n)
}

/// Enabling a module for a chat and then disabling it immediately leaves
/// the chat without that module in its active set.
pub proof fn lemma_enable_then_disable(l: Seq<Seq<char>>, n: Seq<char>)
    requires
        l.no_duplicates(),
    ensures
        !spec_disable_names(spec_enable_names(l, n), n).contains(n),
{
    let l2 = spec_enable_names(l, n);
    if !l.contains(n) {
        assert forall|p: int, q: int| 0 <= p < q < l2.len() implies l2[p] != l2[q] by {
            if q == l.len() {
                assert(l2[p] == l[p]);
                if l2[p] == n {
                    assert(l.contains(n));
                }
            }
        }
    }
    lemma_remove_value_gone(l2, n);
}

/// Disabling an already-disabled module changes nothing: the second
/// disable is a no-op (and, per the admin contract, produces the same
/// success reply).
pub proof fn lemma_disable_idempotent(l: Seq<Seq<char>>, n: Seq<char>)
    requires
        l.no_duplicates(),
    ensures
        spec_disable_names(spec_disable_names(l, n), n) == spec_disable_names(l, n),
{
    lemma_remove_value_gone(l, n);
    let l2 = spec_disable_names(l, n);
    l2.index_of_first_ensures(n);
    match l2.index_of_first(n) {
        Some(i) => {
            assert(l2.contains(n));
        },
        None => {},
    }
}

/// A record list holds the pair (chat, name).
pub open spec fn rec_present(recs: Seq<(i64, String)>, chat: i64, n: Seq<char>) -> bool {
    exists|i: int| 0 <= i < recs.len() && (#[trigger] recs[i]).0 == chat && recs[i].1@ == n
}

/// The registry's mathematical contents: (name, module) in insertion order.
pub open spec fn reg_view(r: Seq<(String, Module)>) -> Seq<(Seq<char>, Module)> {
    r.map_values(|e: (String, Module)| (e.0@, e.1))
}

/// A name list's mathematical contents.
pub open spec fn names_view(l: Seq<String>) -> Seq<Seq<char>> {
    l.map_values(|s: String| s@)
}

/// The per-chat index's mathematical contents.
pub open spec fn chats_view(c: Seq<(i64, Vec<String>)>) -> Seq<(i64, Seq<Seq<char>>)> {
    c.map_values(|e: (i64, Vec<String>)| (e.0, names_view(e.1@)))
}

/// The dispatcher: enablement store handle, global module registry, the
/// sorted name list for `/modules` rendering, and the per-chat active-set
/// index.
pub struct Dispatcher {
    pub db: Modules,
    pub modules: Vec<(String, Module)>,
    pub loaded_modules: Vec<String>,
    pub chats: Vec<(i64, Vec<String>)>,
}

impl Dispatcher {
    /// The registry's contents.
    pub open spec fn reg(self) -> Seq<(Seq<char>, Module)> {
        reg_view(self.modules@)
    }

    /// The registered module names, in registration order.
    pub open spec fn names(self) -> Seq<Seq<char>> {
        self.reg().map_values(|e: (Seq<char>, Module)| e.0)
    }

    /// Whether a module of this name is registered.
    pub open spec fn has_module(self, n: Seq<char>) -> bool {
        assoc(self.reg(), n) is Some
    }

    /// The sorted name list retained for `/modules` rendering.
    pub open spec fn loaded(self) -> Seq<Seq<char>> {
        names_view(self.loaded_modules@)
    }

    /// The active set of a chat, as a name list; empty for an unknown chat.
    pub open spec fn active_names(self, chat: i64) -> Seq<Seq<char>> {
        match assoc(chats_view(self.chats@), chat) {
            Some(l) => l,
            None => Seq::empty(),
        }
    }

    /// Whether a module is active for a chat.
    pub open spec fn active(self, chat: i64, n: Seq<char>) -> bool {
        self.active_names(chat).contains(n)
    }

    /// Well-formedness: unique module names, well-formed modules, unique
    /// chat entries, duplicate-free active sets, and every active name
    /// present in the global registry.
    pub open spec fn wf(self) -> bool {
        let r = self.reg();
        let c = chats_view(self.chats@);
        &&& forall|i: int, j: int| 0 <= i < j < r.len() ==> r[i].0 != r[j].0
        &&& forall|i: int| 0 <= i < r.len() ==> (#[trigger] r[i]).1.wf()
        &&& forall|i: int, j: int| 0 <= i < j < c.len() ==> c[i].0 != c[j].0
        &&& forall|i: int| 0 <= i < c.len() ==> (#[trigger] c[i]).1.no_duplicates()
        &&& forall|i: int, j: int|
            0 <= i < c.len() && 0 <= j < c[i].1.len() ==> self.has_module(
                #[trigger] c[i].1[j],
            )
    }

    /// A dispatcher over the given enablement store, with an empty registry
    /// and no active sets.
    pub fn new(db: Modules) -> (d: Dispatcher)
        ensures
            d.wf(),
            d.reg().len() == 0,
            d.loaded().len() == 0,
            d.chats@.len() == 0,
            forall|chat: i64, n: Seq<char>| !d.active(chat, n),
    {
        let d = Dispatcher {
            db,
            modules: Vec::new(),
            loaded_modules: Vec::new(),
            chats: Vec::new(),
        };
        proof {
            assert(d.reg().len() == 0);
            assert(chats_view(d.chats@).len() == 0);
        }
        d
    }

    /// The index of the registry entry holding `name`, if any.
    fn find_module(&self, name: &String) -> (r: Option<usize>)
        ensures
            r is Some <==> self.has_module(name@),
            r matches Some(i) ==> i < self.modules@.len() && self.reg()[i as int].0 == name@,
    {
        let mut i: usize = 0;
        while i < self.modules.len()
            invariant
                0 <= i <= self.modules@.len(),
                forall|j: int| 0 <= j < i ==> (#[trigger] self.reg()[j]).0 != name@,
            decreases self.modules@.len() - i,
        {
            if self.modules[i].0.eq(name) {
                proof {
                    lemma_assoc_found(self.reg(), i as int, name@);
                }
                return Some(i);
            }
            i = i + 1;
        }
        proof {
            lemma_assoc_absent(self.reg(), name@);
        }
        None
    }

    /// Registers a module under a globally unique name. Re-registering a
    /// name is a startup-time configuration error: the registry is left
    /// unchanged and the duplicate name is reported.
    pub fn add_module(&mut self, name: String, m: Module) -> (r: Result<(), ConfigError>)
        requires
            old(self).wf(),
            m.wf(),
        ensures
            final(self).wf(),
            r is Ok <==> !old(self).has_module(name@),
            final(self).chats@ == old(self).chats@,
            final(self).loaded_modules@ == old(self).loaded_modules@,
            r is Ok ==> assoc(final(self).reg(), name@) == Some(m) && forall|n: Seq<char>|
                n != name@ ==> assoc(final(self).reg(), n) == assoc(old(self).reg(), n),
            r is Err ==> final(self).modules@ == old(self).modules@,
    {
        match self.find_module(&name) {
            Some(_) => Err(ConfigError::DuplicateModule),
            None => {
                let ghost r0 = self.reg();
                self.modules.push((name, m));
                proof {
                    assert(self.reg() =~= r0.push((name@, m)));
                    assert forall|n: Seq<char>| #![all_triggers]
                        assoc(self.reg(), n) == (if n == name@ {
                            Some(m)
                        } else {
                            assoc(r0, n)
                        }) by {
                        lemma_assoc_push(r0, (name@, m), n);
                        if assoc(r0, n) is Some {
                            lemma_assoc_some_index(r0, n);
                        }
                    }
                    assert forall|i: int, j: int|
                        0 <= i < j < self.reg().len() implies self.reg()[i].0
                        != self.reg()[j].0 by {
                        if j == r0.len() {
                            assert(self.reg()[i].0 == r0[i].0);
                            lemma_assoc_found_any(r0, i);
                        }
                    }
                }
                Ok(())
            },
        }
    }

    /// Registers a subscriber's interests as the module named `name`.
    pub fn add_sub<T: Subscriber>(&mut self, name: String, sub: &T) -> (r: Result<
        (),
        ConfigError,
    >)
        requires
            old(self).wf(),
        ensures
            final(self).wf(),
            r is Ok <==> !old(self).has_module(name@),
            final(self).chats@ == old(self).chats@,
            final(self).loaded_modules@ == old(self).loaded_modules@,
            r is Ok ==> final(self).has_module(name@) && forall|n: Seq<char>|
                n != name@ ==> assoc(final(self).reg(), n) == assoc(old(self).reg(), n),
            r is Err ==> final(self).modules@ == old(self).modules@,
    {
        let m = Module::from(sub);
        self.add_module(name, m)
    }

    /// Adds `name` to the chat's in-memory active set; already-active
    /// modules are left alone, and no other chat is touched.
    fn enable_in_memory(&mut self, chat: i64, name: String)
        requires
            old(self).wf(),
            old(self).has_module(name@),
        ensures
            final(self).wf(),
            final(self).modules@ == old(self).modules@,
            final(self).loaded_modules@ == old(self).loaded_modules@,
            final(self).active_names(chat) == spec_enable_names(
                old(self).active_names(chat),
                name@,
            ),
            forall|c2: i64|
                c2 != chat ==> final(self).active_names(c2) == old(self).active_names(c2),
    {
        let ghost c0 = chats_view(self.chats@);
        let mut ci: usize = 0;
        while ci < self.chats.len()
            invariant
                0 <= ci <= self.chats@.len(),
                self == old(self),
                old(self).wf(),
                old(self).has_module(name@),
                c0 == chats_view(self.chats@),
                c0.len() == self.chats@.len(),
                forall|j: int| 0 <= j < ci ==> (#[trigger] c0[j]).0 != chat,
            decreases self.chats@.len() - ci,
        {
            if self.chats[ci].0 == chat {
                proof {
                    assert(c0[ci as int].0 == chat);
                    lemma_assoc_found(c0, ci as int, chat);
                }
                // look for the name in this chat's list
                let ghost l0 = c0[ci as int].1;
                let mut j: usize = 0;
                let n = self.chats[ci].1.len();
                while j < n
                    invariant
                        0 <= j <= n,
                        self == old(self),
                        old(self).wf(),
                        old(self).has_module(name@),
                        c0 == chats_view(self.chats@),
                        c0.len() == self.chats@.len(),
                        ci < self.chats@.len(),
                        c0[ci as int].0 == chat,
                        forall|jj: int| 0 <= jj < ci ==> (#[trigger] c0[jj]).0 != chat,
                        n == self.chats@[ci as int].1@.len(),
                        l0 == c0[ci as int].1,
                        forall|k: int| 0 <= k < j ==> l0[k] != name@,
                    decreases n - j,
                {
                    if self.chats[ci].1[j].eq(&name) {
                        proof {
                            lemma_assoc_found(c0, ci as int, chat);
                            assert(l0[j as int] == name@);
                            assert(l0.contains(name@));
                        }
                        return ;
                    }
                    j = j + 1;
                }
                proof {
                    lemma_assoc_found(c0, ci as int, chat);
                }
                proof {
                    assert(forall|k: int| 0 <= k < l0.len() ==> l0[k] != name@);
                    assert(!l0.contains(name@));
                }
                let mut pair = self.chats.remove(ci);
                pair.1.push(name);
                self.chats.insert(ci, pair);
                proof {
                    let cnew = chats_view(self.chats@);
                    assert(cnew =~= c0.update(ci as int, (chat, l0.push(name@)))) by {
                        assert forall|q: int| 0 <= q < cnew.len() implies cnew[q] == c0.update(
                            ci as int,
                            (chat, l0.push(name@)),
                        )[q] by {
                            assert(cnew[q] == (self.chats@[q].0, names_view(self.chats@[q].1@)));
                            if q == ci {
                                assert(names_view(self.chats@[q].1@) =~= l0.push(name@));
                            }
                        }
                    }
                    assert(c0[ci as int].0 == chat);
                    assert forall|c2: i64| #![all_triggers]
                        assoc(cnew, c2) == (if c2 == chat {
                            Some(l0.push(name@))
                        } else {
                            assoc(c0, c2)
                        }) by {
                        lemma_assoc_update(c0, ci as int, l0.push(name@), c2);
                    }
                    // wf: the pushed name is registered and not a duplicate
                    assert forall|i: int| 0 <= i < cnew.len() implies (
                    #[trigger] cnew[i]).1.no_duplicates() by {
                        assert(c0[i].1.no_duplicates());
                        if i == ci {
                            assert(l0.no_duplicates());
                            assert forall|p: int, q: int|
                                0 <= p < q < cnew[i].1.len() implies cnew[i].1[p]
                                != cnew[i].1[q] by {
                                if q == l0.len() {
                                    assert(cnew[i].1[p] == l0[p]);
                                    if l0[p] == name@ {
                                        assert(l0.contains(name@));
                                    }
                                } else {
                                    assert(cnew[i].1[p] == l0[p] && cnew[i].1[q] == l0[q]);
                                }
                            }
                        } else {
                            assert(cnew[i] == c0[i]);
                        }
                    }
                    assert forall|i: int, j2: int|
                        0 <= i < cnew.len() && 0 <= j2 < cnew[i].1.len() implies self.has_module(
                        #[trigger] cnew[i].1[j2]) by {
                        if i == ci {
                            if j2 < l0.len() {
                                assert(cnew[i].1[j2] == c0[i].1[j2]);
                            } else {
                                assert(cnew[i].1[j2] == name@);
                            }
                        } else {
                            assert(cnew[i] == c0[i]);
                        }
                    }
                }
                return ;
            }
            ci = ci + 1;
        }
        proof {
            lemma_assoc_absent(c0, chat);
        }
        let mut l: Vec<String> = Vec::new();
        l.push(name);
        self.chats.push((chat, l));
        proof {
            let cnew = chats_view(self.chats@);
            let ghost nl = names_view(l@);
            assert(nl =~= Seq::<Seq<char>>::empty().push(name@));
            assert(cnew =~= c0.push((chat, nl))) by {
                assert forall|q: int| 0 <= q < cnew.len() implies cnew[q] == c0.push(
                    (chat, nl),
                )[q] by {
                    assert(cnew[q] == (self.chats@[q].0, names_view(self.chats@[q].1@)));
                }
            }
            assert forall|c2: i64| #![all_triggers]
                assoc(cnew, c2) == (if c2 == chat {
                    Some(nl)
                } else {
                    assoc(c0, c2)
                }) by {
                lemma_assoc_push(c0, (chat, nl), c2);
                if c2 != chat && assoc(c0, c2) is Some {
                    lemma_assoc_some_index(c0, c2);
                }
            }
            assert(spec_enable_names(Seq::<Seq<char>>::empty(), name@) =~= nl);
            assert forall|i: int, j: int|
                0 <= i < j < cnew.len() implies cnew[i].0 != cnew[j].0 by {
                if j == c0.len() {
                    assert(cnew[i].0 == c0[i].0);
                    lemma_assoc_found_any(c0, i);
                }
            }
        }
    }

    /// Removes `name` from the chat's in-memory active set, with no error
    /// if it is absent; no other chat is touched.
    fn disable_in_memory(&mut self, chat: i64, name: &String)
        requires
            old(self).wf(),
        ensures
            final(self).wf(),
            final(self).modules@ == old(self).modules@,
            final(self).loaded_modules@ == old(self).loaded_modules@,
            final(self).active_names(chat) == spec_disable_names(
                old(self).active_names(chat),
                name@,
            ),
            forall|c2: i64|
                c2 != chat ==> final(self).active_names(c2) == old(self).active_names(c2),
    {
        let ghost c0 = chats_view(self.chats@);
        let mut ci: usize = 0;
        while ci < self.chats.len()
            invariant
                0 <= ci <= self.chats@.len(),
                self == old(self),
                old(self).wf(),
                c0 == chats_view(self.chats@),
                c0.len() == self.chats@.len(),
                forall|j: int| 0 <= j < ci ==> (#[trigger] c0[j]).0 != chat,
            decreases self.chats@.len() - ci,
        {
            if self.chats[ci].0 == chat {
                proof {
                    assert(c0[ci as int].0 == chat);
                    lemma_assoc_found(c0, ci as int, chat);
                }
                let ghost l0 = c0[ci as int].1;
                let mut j: usize = 0;
                let n = self.chats[ci].1.len();
                while j < n
                    invariant
                        0 <= j <= n,
                        self == old(self),
                        old(self).wf(),
                        c0 == chats_view(self.chats@),
                        c0.len() == self.chats@.len(),
                        ci < self.chats@.len(),
                        c0[ci as int].0 == chat,
                        forall|jj: int| 0 <= jj < ci ==> (#[trigger] c0[jj]).0 != chat,
                        n == self.chats@[ci as int].1@.len(),
                        l0 == c0[ci as int].1,
                        forall|k: int| 0 <= k < j ==> l0[k] != name@,
                    decreases n - j,
                {
                    if self.chats[ci].1[j].eq(name) {
                        let mut pair = self.chats.remove(ci);
                        pair.1.remove(j);
                        self.chats.insert(ci, pair);
                        proof {
                            lemma_assoc_found(c0, ci as int, chat);
                            let cnew = chats_view(self.chats@);
                            let l2 = l0.remove(j as int);
                            assert(cnew =~= c0.update(ci as int, (chat, l2))) by {
                                assert forall|q: int| 0 <= q < cnew.len() implies cnew[q]
                                    == c0.update(ci as int, (chat, l2))[q] by {
                                    assert(cnew[q] == (self.chats@[q].0, names_view(
                                        self.chats@[q].1@,
                                    )));
                                    if q == ci {
                                        assert(names_view(self.chats@[q].1@) =~= l2);
                                    }
                                }
                            }
                            assert forall|c2: i64| #![all_triggers]
                                assoc(cnew, c2) == (if c2 == chat {
                                    Some(l2)
                                } else {
                                    assoc(c0, c2)
                                }) by {
                                lemma_assoc_update(c0, ci as int, l2, c2);
                            }
                            // the found index is the first occurrence
                            l0.index_of_first_ensures(name@);
                            match l0.index_of_first(name@) {
                                Some(i0) => {
                                    if i0 < j {
                                        assert(l0[i0] == name@);
                                    } else if i0 > j {
                                        assert(l0[j as int] != name@);
                                    }
                                    assert(i0 == j);
                                },
                                None => {
                                    assert(l0.contains(name@)) by {
                                        assert(l0[j as int] == name@);
                                    }
                                },
                            }
                            assert(l2 == spec_disable_names(l0, name@));
                            // wf: removal keeps lists duplicate-free and registered
                            assert forall|i: int| 0 <= i < cnew.len() implies (
                            #[trigger] cnew[i]).1.no_duplicates() by {
                                assert(c0[i].1.no_duplicates());
                                if i == ci {
                                    assert(l0.no_duplicates());
                                    assert forall|p: int, q: int|
                                        0 <= p < q < l2.len() implies l2[p] != l2[q] by {
                                        let p2: int = if p < j {
                                            p
                                        } else {
                                            p + 1
                                        };
                                        let q2: int = if q < j {
                                            q
                                        } else {
                                            q + 1
                                        };
                                        assert(l2[p] == l0[p2] && l2[q] == l0[q2]);
                                    }
                                } else {
                                    assert(cnew[i] == c0[i]);
                                }
                            }
                            assert forall|i: int, j2: int|
                                0 <= i < cnew.len() && 0 <= j2 < cnew[i].1.len() implies self
                                .has_module(#[trigger] cnew[i].1[j2]) by {
                                if i == ci {
                                    let p2: int = if j2 < j {
                                        j2
                                    } else {
                                        j2 + 1
                                    };
                                    assert(cnew[i].1[j2] == c0[i].1[p2]);
                                } else {
                                    assert(cnew[i] == c0[i]);
                                }
                            }
                        }
                        return ;
                    }
                    j = j + 1;
                }
                proof {
                    lemma_assoc_found(c0, ci as int, chat);
                    assert(forall|k: int| 0 <= k < l0.len() ==> l0[k] != name@);
                    assert(!l0.contains(name@));
                    l0.index_of_first_ensures(name@);
                    match l0.index_of_first(name@) {
                        Some(i0) => {
                            assert(l0.contains(name@));
                        },
                        None => {},
                    }
                    assert(spec_disable_names(l0, name@) == l0);
                }
                return ;
            }
            ci = ci + 1;
        }
        proof {
            lemma_assoc_absent(c0, chat);
            let e = Seq::<Seq<char>>::empty();
            e.index_of_first_ensures(name@);
            match e.index_of_first(name@) {
                Some(i0) => {
                    assert(e.contains(name@));
                    let w = choose|w: int| 0 <= w < e.len() && e[w] == name@;
                    assert(false);
                },
                None => {},
            }
            assert(spec_disable_names(e, name@) == e);
        }
    }

    /// Rebuilds the per-chat active-set index from the persisted records:
    /// a record whose module name is registered activates that module for
    /// its chat; records for unknown modules are skipped. The resulting
    /// active sets are a pure function of the records and the registry, so
    /// a restart with the same persisted records reproduces the same
    /// active sets.
    pub fn rehydrate(&mut self, recs: &Vec<(i64, String)>)
        requires
            old(self).wf(),
            old(self).chats@.len() == 0,
        ensures
            final(self).wf(),
            final(self).modules@ == old(self).modules@,
            final(self).loaded_modules@ == old(self).loaded_modules@,
            forall|chat: i64, n: Seq<char>|
                final(self).active(chat, n) <==> (rec_present(recs@, chat, n) && old(
                    self,
                ).has_module(n)),
    {
        let mut i: usize = 0;
        proof {
            assert(chats_view(self.chats@).len() == 0);
        }
        while i < recs.len()
            invariant
                0 <= i <= recs@.len(),
                self.wf(),
                self.modules@ == old(self).modules@,
                self.loaded_modules@ == old(self).loaded_modules@,
                forall|chat: i64, n: Seq<char>|
                    self.active(chat, n) <==> (rec_present(recs@.take(i as int), chat, n) && old(
                        self,
                    ).has_module(n)),
            decreases recs@.len() - i,
        {
            let chat = recs[i].0;
            let name = recs[i].1.clone();
            let ghost pre = *self;
            match self.find_module(&name) {
                Some(_) => {
                    self.enable_in_memory(chat, name);
                },
                None => {},
            }
            proof {
                assert(recs@.take(i + 1 as int) =~= recs@.take(i as int).push(recs@[i as int]));
                assert(name@ == recs@[i as int].1@);
                assert forall|c2: i64, n: Seq<char>|
                    self.active(c2, n) <==> (rec_present(recs@.take(i + 1 as int), c2, n) && old(
                        self,
                    ).has_module(n)) by {
                    assert(pre.active(c2, n) <==> (rec_present(recs@.take(i as int), c2, n)
                        && old(self).has_module(n)));
                    lemma_rec_present_push(recs@.take(i as int), recs@[i as int], c2, n);
                    if pre.has_module(name@) {
                        if c2 == chat {
                            if !pre.active_names(chat).contains(name@) {
                                lemma_push_contains(pre.active_names(chat), name@, n);
                            }
                        }
                    }
                }
            }
            i = i + 1;
        }
        proof {
            assert(recs@.take(recs@.len() as int) =~= recs@);
        }
    }
}

/// A present association has an entry.
pub proof fn lemma_assoc_some_index<K, V>(s: Seq<(K, V)>, k: K)
    requires
        assoc(s, k) is Some,
    ensures
        exists|i: int| 0 <= i < s.len() && (#[trigger] s[i]).0 == k,
    decreases s.len(),
{
    if s.len() > 0 {
        if s[0].0 == k {
            assert(s[0].0 == k);
        } else {
            lemma_assoc_some_index(s.drop_first(), k);
            let i = choose|i: int|
                0 <= i < s.drop_first().len() && (#[trigger] s.drop_first()[i]).0 == k;
            assert(s[i + 1].0 == k);
        }
    }
}

/// An entry key is associated (to something).
pub proof fn lemma_assoc_found_any<K, V>(s: Seq<(K, V)>, i: int)
    requires
        0 <= i < s.len(),
    ensures
        assoc(s, s[i].0) is Some,
    decreases i,
{
    if s[0].0 != s[i].0 {
        assert(s.drop_first()[i - 1] == s[i]);
        lemma_assoc_found_any(s.drop_first(), i - 1);
    }
}

proof fn lemma_rec_present_push(
    recs: Seq<(i64, String)>,
    e: (i64, String),
    chat: i64,
    n: Seq<char>,
)
    ensures
        rec_present(recs.push(e), chat, n) == (rec_present(recs, chat, n) || (e.0 == chat && e.1@
            == n)),
{
    if rec_present(recs, chat, n) {
        let i = choose|i: int| 0 <= i < recs.len() && (#[trigger] recs[i]).0 == chat && recs[i].1@
            == n;
        assert(recs.push(e)[i].0 == chat && recs.push(e)[i].1@ == n);
    }
    if e.0 == chat && e.1@ == n {
        assert(recs.push(e)[recs.len() as int].0 == chat && recs.push(e)[recs.len() as int].1@
            == n);
    }
    if rec_present(recs.push(e), chat, n) {
        let i = choose|i: int|
            0 <= i < recs.push(e).len() && (#[trigger] recs.push(e)[i]).0 == chat && recs.push(
                e,
            )[i].1@ == n;
        if i < recs.len() {
            assert(recs[i].0 == chat && recs[i].1@ == n);
        }
    }
}

/// Rehydration is deterministic: two dispatchers that register the same
/// module names and whose active sets were rebuilt from the same persisted
/// records (the relation `rehydrate` ensures) hold exactly the same active
/// sets. A restarted process therefore reproduces its active sets from the
/// store alone, with no command re-issued.
pub proof fn lemma_restart_reproduces_active_set(
    a: Dispatcher,
    b: Dispatcher,
    recs: Seq<(i64, String)>,
)
    requires
        forall|n: Seq<char>| #[trigger] a.has_module(n) == b.has_module(n),
        forall|chat: i64, n: Seq<char>|
            #[trigger] a.active(chat, n) <==> (rec_present(recs, chat, n) && a.has_module(n)),
        forall|chat: i64, n: Seq<char>|
            #[trigger] b.active(chat, n) <==> (rec_present(recs, chat, n) && b.has_module(n)),
    ensures
        forall|chat: i64, n: Seq<char>| #[trigger] a.active(chat, n) == b.active(chat, n),
{
}

/// A startup-time configuration error.
#[derive(Clone, Copy, PartialEq, Eq, Structural, Debug)]
pub enum ConfigError {
    /// A module name was registered twice; names must be globally unique.
    DuplicateModule,
}

/// Sortedness in the lexicographic order on names.
pub open spec fn sorted_names(l: Seq<Seq<char>>) -> bool {
    forall|i: int, j: int| 0 <= i < j < l.len() ==> text::chars_le(#[trigger] l[i], #[trigger] l[j])
}

proof fn lemma_insert_contains<A>(s: Seq<A>, i: int, e: A, y: A)
    requires
        0 <= i <= s.len(),
    ensures
        s.insert(i, e).contains(y) == (s.contains(y) || e == y),
{
    let s2 = s.insert(i, e);
    if s.contains(y) {
        let w = choose|w: int| 0 <= w < s.len() && s[w] == y;
        if w < i {
            assert(s2[w] == y);
        } else {
            assert(s2[w + 1] == y);
        }
    }
    if e == y {
        assert(s2[i] == y);
    }
    if s2.contains(y) {
        let w = choose|w: int| 0 <= w < s2.len() && s2[w] == y;
        if w < i {
            assert(s[w] == y);
        } else if w > i {
            assert(s[w - 1] == y);
        }
    }
}

/// Sorts a name list in place; the result is lexicographically sorted and
/// holds exactly the names the input held.
fn sort_names(v: &mut Vec<String>)
    requires
        names_view(old(v)@).no_duplicates(),
    ensures
        sorted_names(names_view(final(v)@)),
        names_view(final(v)@).no_duplicates(),
        final(v)@.len() == old(v)@.len(),
        forall|n: Seq<char>|
            names_view(final(v)@).contains(n) == names_view(old(v)@).contains(n),
{
    if v.len() <= 1 {
        return ;
    }
    let mut i: usize = 1;
    while i < v.len()
        invariant
            1 <= i <= v@.len(),
            v@.len() == old(v)@.len(),
            names_view(v@).no_duplicates(),
            sorted_names(names_view(v@).take(i as int)),
            forall|n: Seq<char>|
                names_view(v@).contains(n) == names_view(old(v)@).contains(n),
        decreases v@.len() - i,
    {
        let ghost v0 = v@;
        let ghost l0 = names_view(v@);
        proof {
            assert forall|q1: int, q2: int| 0 <= q1 < q2 < i implies text::chars_le(
                #[trigger] l0[q1],
                #[trigger] l0[q2],
            ) by {
                assert(names_view(v@).take(i as int)[q1] == l0[q1]);
                assert(names_view(v@).take(i as int)[q2] == l0[q2]);
            }
        }
        let mut p: usize = 0;
        while p < i && text::str_le(&v[p], &v[i])
            invariant
                0 <= p <= i < v@.len(),
                v0 == v@,
                l0 == names_view(v@),
                forall|q: int| 0 <= q < p ==> text::chars_le(#[trigger] l0[q], l0[i as int]),
                forall|q1: int, q2: int|
                    0 <= q1 < q2 < i ==> text::chars_le(#[trigger] l0[q1], #[trigger] l0[q2]),
            decreases i - p,
        {
            p = p + 1;
        }
        if p < i {
            proof {
                text::lemma_chars_le_total(l0[p as int], l0[i as int]);
                assert(text::chars_le(l0[i as int], l0[p as int]));
            }
            let x = v.remove(i);
            v.insert(p, x);
            proof {
                let l2 = names_view(v@);
                let lr = l0.remove(i as int);
                assert(lr.insert(p as int, l0[i as int]) =~= l2) by {
                    assert(v@ == v0.remove(i as int).insert(p as int, x));
                    assert forall|q: int| 0 <= q < l2.len() implies l2[q] == lr.insert(
                        p as int,
                        l0[i as int],
                    )[q] by {
                        assert(l2[q] == v@[q]@);
                    }
                }
                // sortedness of the prefix of length i+1
                assert forall|q1: int, q2: int|
                    0 <= q1 < q2 < i + 1 implies text::chars_le(
                    #[trigger] l2[q1],
                    #[trigger] l2[q2],
                ) by {
                    let x0 = l0[i as int];
                    let a: Seq<char> = if q1 < p {
                        l0[q1]
                    } else if q1 == p {
                        x0
                    } else {
                        l0[q1 - 1]
                    };
                    assert(l2[q1] == a);
                    let b: Seq<char> = if q2 < p {
                        l0[q2]
                    } else if q2 == p {
                        x0
                    } else {
                        l0[q2 - 1]
                    };
                    assert(l2[q2] == b);
                    if q2 < p {
                        assert(text::chars_le(l0[q1], l0[q2]));
                    } else if q2 == p {
                        assert(text::chars_le(l0[q1], x0));
                    } else {
                        // q2 > p: b == l0[q2 - 1] with p <= q2 - 1 < i
                        if q1 < p {
                            if q1 < q2 - 1 {
                                assert(text::chars_le(l0[q1], l0[q2 - 1]));
                            } else {
                                // q1 == q2 - 1 >= p: impossible since q1 < p
                            }
                        } else if q1 == p {
                            // a == x0, x0 <= l0[p] <= l0[q2-1]
                            if p < q2 - 1 {
                                assert(text::chars_le(l0[p as int], l0[q2 - 1]));
                                text::lemma_chars_le_trans(x0, l0[p as int], l0[q2 - 1]);
                            } else {
                                assert(b == l0[p as int]);
                            }
                        } else {
                            if q1 - 1 < q2 - 1 {
                                assert(text::chars_le(l0[q1 - 1], l0[q2 - 1]));
                            } else {
                                text::lemma_chars_le_total(l0[q1 - 1], l0[q1 - 1]);
                            }
                        }
                    }
                }
                // duplicate-freedom and element preservation
                assert forall|p2: int, q2: int| 0 <= p2 < q2 < l2.len() implies l2[p2]
                    != l2[q2] by {
                    let a2: int = if p2 < p {
                        p2
                    } else if p2 == p {
                        i as int
                    } else if p2 <= i {
                        p2 - 1
                    } else {
                        p2
                    };
                    let b2: int = if q2 < p {
                        q2
                    } else if q2 == p {
                        i as int
                    } else if q2 <= i {
                        q2 - 1
                    } else {
                        q2
                    };
                    assert(l2[p2] == l0[a2] && l2[q2] == l0[b2]);
                }
                assert forall|n: Seq<char>| l2.contains(n) == l0.contains(n) by {
                    lemma_insert_contains(lr, p as int, l0[i as int], n);
                    if l0.contains(n) {
                        let w = choose|w: int| 0 <= w < l0.len() && l0[w] == n;
                        if w < i {
                            assert(lr[w] == n);
                        } else if w > i {
                            assert(lr[w - 1] == n);
                        }
                    }
                    if lr.contains(n) {
                        let w = choose|w: int| 0 <= w < lr.len() && lr[w] == n;
                        if w < i {
                            assert(l0[w] == n);
                        } else {
                            assert(l0[w + 1] == n);
                        }
                    }
                }
            }
        } else {
            proof {
                assert forall|q1: int, q2: int|
                    0 <= q1 < q2 < i + 1 implies text::chars_le(
                    #[trigger] names_view(v@)[q1],
                    #[trigger] names_view(v@)[q2],
                ) by {
                    if q2 == i {
                        assert(text::chars_le(l0[q1], l0[i as int]));
                    }
                }
            }
        }
        proof {
            assert(sorted_names(names_view(v@).take(i + 1 as int))) by {
                assert forall|q1: int, q2: int|
                    0 <= q1 < q2 < i + 1 implies text::chars_le(
                    #[trigger] names_view(v@).take(i + 1 as int)[q1],
                    #[trigger] names_view(v@).take(i + 1 as int)[q2],
                ) by {
                    assert(names_view(v@).take(i + 1 as int)[q1] == names_view(v@)[q1]);
                    assert(names_view(v@).take(i + 1 as int)[q2] == names_view(v@)[q2]);
                }
            }
        }
        i = i + 1;
    }
    proof {
        if v@.len() > 0 {
            assert(names_view(v@).take(v@.len() as int) =~= names_view(v@));
        }
    }
}

/// A chat reply the dispatcher owes, with its formatting mode.
pub struct Reply {
    pub text: String,
    pub markdown: bool,
}

/// What admin interception decided for one message: whether the update is
/// consumed, and the reply to send.
pub struct ServiceOutcome {
    pub intercepted: bool,
    pub reply: Option<Reply>,
}

/// The admin command's argument: the second delimiter-separated token of a
/// text message.
pub open spec fn spec_cmd_arg(c: MessageContent) -> Option<Seq<char>> {
    match c {
        MessageContent::Text { data } => text::second_token(data@),
        _ => None,
    }
}

/// Whether a message invokes one of the three administrative commands.
pub open spec fn is_admin_cmd(c: MessageContent) -> bool {
    let t = spec_command_token(c);
    ||| t == Some("/enable"@)
    ||| t == Some("/disable"@)
    ||| t == Some("/modules"@)
}

/// A reply with exactly this text and formatting mode.
pub open spec fn reply_is(r: Option<Reply>, text: Seq<char>, markdown: bool) -> bool {
    match r {
        Some(rep) => rep.text@ == text && rep.markdown == markdown,
        None => false,
    }
}

/// One line of the `/modules` listing: the mark (`+` when the name is in
/// the chat's active set, `-` otherwise), a space, the name, a newline.
pub open spec fn mark_line(n: Seq<char>, act: Seq<Seq<char>>) -> Seq<char> {
    (if act.contains(n) {
        seq!['+']
    } else {
        seq!['-']
    }) + seq![' '] + n + seq!['\n']
}

/// The `/modules` listing body, one line per loaded name, in order.
pub open spec fn modules_lines(names: Seq<Seq<char>>, act: Seq<Seq<char>>) -> Seq<char>
    decreases names.len(),
{
    if names.len() == 0 {
        Seq::empty()
    } else {
        modules_lines(names.drop_last(), act) + mark_line(names.last(), act)
    }
}

/// The full `/modules` reply text.
pub open spec fn spec_modules_text(names: Seq<Seq<char>>, act: Seq<Seq<char>>) -> Seq<char> {
    "`Available modules: \n"@ + modules_lines(names, act) + "`"@
}

/// What executing an admin command does: the state change of the chat's
/// active set and the reply owed, for each of the three commands. Storage
/// failures on insert or remove surface as the alternative reply while the
/// in-memory state change stands.
pub open spec fn admin_effect(
    pre: Dispatcher,
    post: Dispatcher,
    content: MessageContent,
    chat: i64,
    reply: Option<Reply>,
) -> bool {
    let tok = spec_command_token(content);
    let arg = spec_cmd_arg(content);
    &&& (tok == Some("/enable"@) ==> (match arg {
        None => post.chats@ == pre.chats@ && reply_is(reply, "Specify module name"@, false),
        Some(n) => {
            if pre.has_module(n) {
                &&& post.active_names(chat) == spec_enable_names(pre.active_names(chat), n)
                &&& (forall|c2: i64|
                    c2 != chat ==> post.active_names(c2) == pre.active_names(c2))
                &&& (reply_is(reply, "Module enabled"@, false) || reply_is(
                    reply,
                    "Storage error"@,
                    false,
                ))
            } else {
                post.chats@ == pre.chats@ && reply_is(reply, "Module not found"@, false)
            }
        },
    }))
    &&& (tok == Some("/disable"@) ==> (match arg {
        None => post.chats@ == pre.chats@ && reply_is(reply, "Specify module name"@, false),
        Some(n) => {
            &&& post.active_names(chat) == spec_disable_names(pre.active_names(chat), n)
            &&& (forall|c2: i64| c2 != chat ==> post.active_names(c2) == pre.active_names(c2))
            &&& (reply_is(reply, "Module disabled"@, false) || reply_is(
                reply,
                "Storage error"@,
                false,
            ))
        },
    }))
    &&& (tok == Some("/modules"@) ==> post.chats@ == pre.chats@ && reply_is(
        reply,
        spec_modules_text(pre.loaded(), pre.active_names(chat)),
        true,
    ))
}

impl Dispatcher {
    /// Whether `name` is enabled for `chat`.
    pub fn is_active(&self, chat: i64, name: &str) -> (r: bool)
        ensures
            r == self.active(chat, name@),
    {
        let ghost c0 = chats_view(self.chats@);
        let mut ci: usize = 0;
        while ci < self.chats.len()
            invariant
                0 <= ci <= self.chats@.len(),
                c0 == chats_view(self.chats@),
                c0.len() == self.chats@.len(),
                forall|j: int| 0 <= j < ci ==> (#[trigger] c0[j]).0 != chat,
            decreases self.chats@.len() - ci,
        {
            if self.chats[ci].0 == chat {
                proof {
                    lemma_assoc_found(c0, ci as int, chat);
                }
                let ghost l0 = c0[ci as int].1;
                let mut j: usize = 0;
                let n = self.chats[ci].1.len();
                while j < n
                    invariant
                        0 <= j <= n,
                        c0 == chats_view(self.chats@),
                        ci < self.chats@.len(),
                        c0[ci as int].0 == chat,
                        forall|jj: int| 0 <= jj < ci ==> (#[trigger] c0[jj]).0 != chat,
                        n == self.chats@[ci as int].1@.len(),
                        l0 == c0[ci as int].1,
                        forall|k: int| 0 <= k < j ==> l0[k] != name@,
                    decreases n - j,
                {
                    if text::str_eq(self.chats[ci].1[j].as_str(), name) {
                        proof {
                            lemma_assoc_found(c0, ci as int, chat);
                            assert(l0[j as int] == name@);
                        }
                        return true;
                    }
                    j = j + 1;
                }
                proof {
                    lemma_assoc_found(c0, ci as int, chat);
                    assert(!l0.contains(name@));
                }
                return false;
            }
            ci = ci + 1;
        }
        proof {
            lemma_assoc_absent(c0, chat);
        }
        false
    }

    /// Renders the `/modules` listing for a chat: every loaded name in
    /// order, marked `+` exactly when it is enabled for the chat.
    fn modules_text(&self, chat: i64) -> (r: String)
        ensures
            r@ == spec_modules_text(self.loaded(), self.active_names(chat)),
    {
        let ghost act = self.active_names(chat);
        let ghost names = self.loaded();
        let mut out: Vec<char> = text::str_chars("`Available modules: \n");
        let mut i: usize = 0;
        while i < self.loaded_modules.len()
            invariant
                0 <= i <= self.loaded_modules@.len(),
                act == self.active_names(chat),
                names == self.loaded(),
                names.len() == self.loaded_modules@.len(),
                out@ == "`Available modules: \n"@ + modules_lines(names.take(i as int), act),
            decreases self.loaded_modules@.len() - i,
        {
            let enabled = self.is_active(chat, self.loaded_modules[i].as_str());
            if enabled {
                out.push('+');
            } else {
                out.push('-');
            }
            out.push(' ');
            let mut nv = text::str_chars(self.loaded_modules[i].as_str());
            out.append(&mut nv);
            out.push('\n');
            proof {
                assert(names.take(i + 1 as int).drop_last() =~= names.take(i as int));
                assert(names.take(i + 1 as int).last() == names[i as int]);
                assert(out@ =~= "`Available modules: \n"@ + modules_lines(
                    names.take(i + 1 as int),
                    act,
                ));
            }
            i = i + 1;
        }
        let mut tick = text::str_chars("`");
        out.append(&mut tick);
        proof {
            assert(names.take(names.len() as int) =~= names);
            assert(out@ =~= "`Available modules: \n"@ + modules_lines(names, act) + "`"@);
        }
        text::chars_str(&out)
    }

    /// Admin-command interception, run for every received or edited chat
    /// message before routing. A non-admin sender causes no state change
    /// and no reply. An admin invoking `/enable <name>`, `/disable <name>`
    /// or `/modules` has the command executed as `admin_effect` says and
    /// the update consumed; anything else falls through to normal routing.
    pub fn service_cmds(&mut self, content: &MessageContent, chat: i64, is_admin: bool) -> (r:
        ServiceOutcome)
        requires
            old(self).wf(),
        ensures
            final(self).wf(),
            final(self).modules@ == old(self).modules@,
            final(self).loaded_modules@ == old(self).loaded_modules@,
            r.intercepted == (is_admin && is_admin_cmd(*content)),
            !r.intercepted ==> final(self).chats@ == old(self).chats@ && r.reply is None,
            r.intercepted ==> admin_effect(*old(self), *final(self), *content, chat, r.reply),
    {
        proof {
            reveal_strlit("/enable");
            reveal_strlit("/disable");
            reveal_strlit("/modules");
            assert("/enable"@.len() == 7);
            assert("/disable"@.len() == 8);
            assert("/modules"@.len() == 8);
            assert("/disable"@[1] == 'd');
            assert("/modules"@[1] == 'm');
            assert("/enable"@ != "/disable"@);
            assert("/enable"@ != "/modules"@);
            assert("/disable"@ != "/modules"@);
        }
        if !is_admin {
            return ServiceOutcome { intercepted: false, reply: None };
        }
        match content {
            MessageContent::Text { data } => {
                let dv = text::str_chars(data.as_str());
                if dv.len() == 0 {
                    return ServiceOutcome { intercepted: false, reply: None };
                }
                let tok = text::first_token_vec(&dv);
                if text::chars_eq_str(&tok, "/enable") {
                    match text::second_token_vec(&dv) {
                        None => ServiceOutcome {
                            intercepted: true,
                            reply: Some(
                                Reply { text: "Specify module name".to_owned(), markdown: false },
                            ),
                        },
                        Some(namev) => {
                            let name = text::chars_str(&namev);
                            match self.find_module(&name) {
                                Some(_) => {
                                    let name2 = name.clone();
                                    self.enable_in_memory(chat, name2);
                                    let ghost mid = *self;
                                    let res = self.db.add(chat, name.as_str());
                                    proof {
                                        lemma_state_congruence(mid, *self);
                                    }
                                    let text = if res.is_ok() {
                                        "Module enabled".to_owned()
                                    } else {
                                        "Storage error".to_owned()
                                    };
                                    ServiceOutcome {
                                        intercepted: true,
                                        reply: Some(Reply { text, markdown: false }),
                                    }
                                },
                                None => ServiceOutcome {
                                    intercepted: true,
                                    reply: Some(
                                        Reply { text: "Module not found".to_owned(), markdown: false },
                                    ),
                                },
                            }
                        },
                    }
                } else if text::chars_eq_str(&tok, "/disable") {
                    match text::second_token_vec(&dv) {
                        None => ServiceOutcome {
                            intercepted: true,
                            reply: Some(
                                Reply { text: "Specify module name".to_owned(), markdown: false },
                            ),
                        },
                        Some(namev) => {
                            let name = text::chars_str(&namev);
                            self.disable_in_memory(chat, &name);
                            let ghost mid = *self;
                            let res = self.db.rm(chat, name.as_str());
                            proof {
                                lemma_state_congruence(mid, *self);
                            }
                            let text = if res.is_ok() {
                                "Module disabled".to_owned()
                            } else {
                                "Storage error".to_owned()
                            };
                            ServiceOutcome {
                                intercepted: true,
                                reply: Some(Reply { text, markdown: false }),
                            }
                        },
                    }
                } else if text::chars_eq_str(&tok, "/modules") {
                    let text = self.modules_text(chat);
                    ServiceOutcome {
                        intercepted: true,
                        reply: Some(Reply { text, markdown: true }),
                    }
                } else {
                    ServiceOutcome { intercepted: false, reply: None }
                }
            },
            _ => ServiceOutcome { intercepted: false, reply: None },
        }
    }

    /// The deliveries owed when routing `u` through the modules named by
    /// `names`, in list order; names absent from the registry contribute
    /// nothing.
    pub open spec fn route_names_spec(self, names: Seq<Seq<char>>, u: Update) -> Seq<Delivery>
        decreases names.len(),
    {
        if names.len() == 0 {
            Seq::empty()
        } else {
            self.route_names_spec(names.drop_last(), u) + (match assoc(
                self.reg(),
                names.last(),
            ) {
                Some(m) => spec_handle(m, u),
                None => Seq::<Delivery>::empty(),
            })
        }
    }

    /// The deliveries one update owes: through the chat's active modules
    /// for chat-scoped updates, through every registered module otherwise.
    pub open spec fn spec_route(self, u: Update) -> Seq<Delivery> {
        match message_of_update(u) {
            Some(msg) => self.route_names_spec(self.active_names(msg.chat), u),
            None => self.route_names_spec(self.names(), u),
        }
    }

    /// Normal routing: computes every delivery the update owes, in
    /// active-set (or registry) order, each module's deliveries in its
    /// table order.
    pub fn route(&self, u: &Update) -> (r: Vec<Delivery>)
        requires
            self.wf(),
        ensures
            r@ == self.spec_route(*u),
    {
        let mut out: Vec<Delivery> = Vec::new();
        match u {
            Update::Message(md) | Update::EditedMessage(md) => {
                let chat = md.chat;
                let ghost c0 = chats_view(self.chats@);
                let ghost act = self.active_names(chat);
                let mut ci: usize = 0;
                while ci < self.chats.len()
                    invariant
                        0 <= ci <= self.chats@.len(),
                        self.wf(),
                        (message_of_update(*u) matches Some(m2) && m2.chat == chat),
                        out@.len() == 0,
                        c0 == chats_view(self.chats@),
                        c0.len() == self.chats@.len(),
                        forall|j: int| 0 <= j < ci ==> (#[trigger] c0[j]).0 != chat,
                    decreases self.chats@.len() - ci,
                {
                    if self.chats[ci].0 == chat {
                        proof {
                            lemma_assoc_found(c0, ci as int, chat);
                        }
                        let ghost l0 = c0[ci as int].1;
                        let n = self.chats[ci].1.len();
                        let mut j: usize = 0;
                        while j < n
                            invariant
                                0 <= j <= n,
                                self.wf(),
                                (message_of_update(*u) matches Some(m2) && m2.chat == chat),
                                c0 == chats_view(self.chats@),
                                c0.len() == self.chats@.len(),
                                ci < self.chats@.len(),
                                c0[ci as int].0 == chat,
                                forall|jj: int| 0 <= jj < ci ==> (#[trigger] c0[jj]).0 != chat,
                                n == self.chats@[ci as int].1@.len(),
                                l0 == c0[ci as int].1,
                                out@ == self.route_names_spec(l0.take(j as int), *u),
                            decreases n - j,
                        {
                            let name = &self.chats[ci].1[j];
                            match self.find_module(name) {
                                Some(mi) => {
                                    proof {
                                        assert(self.reg()[mi as int].1
                                            == self.modules@[mi as int].1);
                                        assert(self.reg()[mi as int].1.wf());
                                    }
                                    let mut ds = self.modules[mi].1.handle(u);
                                    out.append(&mut ds);
                                    proof {
                                        assert forall|jj: int|
                                            0 <= jj < mi implies (#[trigger] self.reg()[jj]).0
                                            != name@ by {
                                            if self.reg()[jj].0 == name@ {
                                                assert(self.reg()[jj].0 == self.reg()[
                                                mi as int].0);
                                            }
                                        }
                                        lemma_assoc_found(self.reg(), mi as int, name@);
                                    }
                                },
                                None => {},
                            }
                            proof {
                                assert(l0.take(j + 1 as int).drop_last() =~= l0.take(j as int));
                                assert(l0.take(j + 1 as int).last() == l0[j as int]);
                                assert(l0[j as int] == name_at(self.chats@, ci as int, j as int));
                                assert(out@ =~= self.route_names_spec(l0.take(j + 1 as int), *u));
                            }
                            j = j + 1;
                        }
                        proof {
                            lemma_assoc_found(c0, ci as int, chat);
                            assert(self.active_names(chat) == l0);
                            assert(l0.len() == n);
                            assert(l0.take(l0.len() as int) =~= l0);
                            assert(out@ == self.route_names_spec(l0, *u));
                            assert(message_of_update(*u) matches Some(m2) && m2.chat == chat);
                            assert(out@ == self.spec_route(*u));
                        }
                        return out;
                    }
                    ci = ci + 1;
                }
                proof {
                    lemma_assoc_absent(c0, chat);
                }
                out
            },
            _ => {
                let ghost names = self.names();
                let mut i: usize = 0;
                while i < self.modules.len()
                    invariant
                        0 <= i <= self.modules@.len(),
                        self.wf(),
                        names == self.names(),
                        names.len() == self.modules@.len(),
                        out@ == self.route_names_spec(names.take(i as int), *u),
                    decreases self.modules@.len() - i,
                {
                    proof {
                        assert(self.reg()[i as int].1 == self.modules@[i as int].1);
                        assert(self.reg()[i as int].1.wf());
                        assert(names[i as int] == self.reg()[i as int].0);
                    }
                    let mut ds = self.modules[i].1.handle(u);
                    out.append(&mut ds);
                    proof {
                        assert forall|jj: int|
                            0 <= jj < i implies (#[trigger] self.reg()[jj]).0 != names[
                        i as int] by {
                            if self.reg()[jj].0 == names[i as int] {
                                assert(self.reg()[jj].0 == self.reg()[i as int].0);
                            }
                        }
                        lemma_assoc_found(self.reg(), i as int, names[i as int]);
                        assert(names.take(i + 1 as int).drop_last() =~= names.take(i as int));
                        assert(names.take(i + 1 as int).last() == names[i as int]);
                        assert(out@ =~= self.route_names_spec(names.take(i + 1 as int), *u));
                    }
                    i = i + 1;
                }
                proof {
                    assert(names.take(names.len() as int) =~= names);
                }
                out
            },
        }
    }

    /// Startup: retains the sorted list of registered module names for
    /// `/modules` rendering, then rehydrates the per-chat active sets from
    /// the store's records, skipping names absent from the registry. A
    /// storage failure on the list is fatal and is returned before any
    /// active set is built.
    pub fn startup(&mut self) -> (r: Result<(), ModulesError>)
        requires
            old(self).wf(),
            old(self).chats@.len() == 0,
        ensures
            final(self).wf(),
            final(self).modules@ == old(self).modules@,
            sorted_names(final(self).loaded()),
            final(self).loaded().no_duplicates(),
            forall|n: Seq<char>| final(self).loaded().contains(n) == old(self).has_module(n),
            r is Err ==> final(self).chats@.len() == 0,
    {
        let mut names: Vec<String> = Vec::new();
        let mut i: usize = 0;
        while i < self.modules.len()
            invariant
                0 <= i <= self.modules@.len(),
                self == old(self),
                names_view(names@) == self.names().take(i as int),
            decreases self.modules@.len() - i,
        {
            let ghost prev = names_view(names@);
            names.push(self.modules[i].0.clone());
            proof {
                assert(names_view(names@) =~= prev.push(self.modules@[i as int].0@));
                assert(self.reg()[i as int] == (self.modules@[i as int].0@,
                    self.modules@[i as int].1));
                assert(self.names()[i as int] == self.reg()[i as int].0);
                assert(self.names().take(i + 1 as int).drop_last() =~= self.names().take(
                    i as int,
                ));
                assert(self.names().take(i + 1 as int).last() == self.names()[i as int]);
                assert(names_view(names@) =~= self.names().take(i + 1 as int));
            }
            i = i + 1;
        }
        proof {
            assert(self.names().take(self.names().len() as int) =~= self.names());
            assert(names_view(names@) == self.names());
            assert forall|p: int, q: int|
                0 <= p < q < self.names().len() implies self.names()[p] != self.names()[q] by {
                assert(self.names()[p] == self.reg()[p].0);
                assert(self.names()[q] == self.reg()[q].0);
            }
        }
        sort_names(&mut names);
        self.loaded_modules = names;
        proof {
            assert forall|n: Seq<char>|
                self.loaded().contains(n) == old(self).has_module(n) by {
                if old(self).names().contains(n) {
                    let w = choose|w: int|
                        0 <= w < old(self).names().len() && old(self).names()[w] == n;
                    assert(old(self).reg()[w].0 == n);
                    lemma_assoc_found_any(old(self).reg(), w);
                }
                if old(self).has_module(n) {
                    lemma_assoc_some_index(old(self).reg(), n);
                    let w = choose|w: int|
                        0 <= w < old(self).reg().len() && (#[trigger] old(self).reg()[w]).0 == n;
                    assert(old(self).names()[w] == n);
                }
            }
        }
        let recs = match self.db.modules() {
            Ok(recs) => recs,
            Err(e) => {
                return Err(e);
            },
        };
        self.rehydrate(&recs);
        Ok(())
    }

    /// One full dispatch step for an update whose sender's admin status is
    /// already resolved: admin interception first for chat messages; an
    /// executed admin command consumes the update, anything else is routed
    /// normally.
    pub fn process_update(&mut self, u: &Update, is_admin: bool) -> (r: ProcessOutcome)
        requires
            old(self).wf(),
        ensures
            final(self).wf(),
            final(self).modules@ == old(self).modules@,
            final(self).loaded_modules@ == old(self).loaded_modules@,
            message_of_update(*u) is None ==> final(self).chats@ == old(self).chats@
                && r.reply is None && r.deliveries@ == old(self).spec_route(*u),
            message_of_update(*u) matches Some(msg) ==> {
                &&& !(is_admin && is_admin_cmd(msg.content)) ==> final(self).chats@ == old(
                    self,
                ).chats@ && r.reply is None && r.deliveries@ == old(self).spec_route(*u)
                &&& (is_admin && is_admin_cmd(msg.content)) ==> r.deliveries@.len() == 0
                    && admin_effect(*old(self), *final(self), msg.content, msg.chat, r.reply)
            },
    {
        match u {
            Update::Message(md) | Update::EditedMessage(md) => {
                let outcome = self.service_cmds(&md.content, md.chat, is_admin);
                if outcome.intercepted {
                    ProcessOutcome { reply: outcome.reply, deliveries: Vec::new() }
                } else {
                    let ds = self.route(u);
                    proof {
                        lemma_spec_route_congruence(*old(self), *self, *u);
                    }
                    ProcessOutcome { reply: None, deliveries: ds }
                }
            },
            _ => {
                let ds = self.route(u);
                proof {
                    lemma_spec_route_congruence(*old(self), *self, *u);
                }
                ProcessOutcome { reply: None, deliveries: ds }
            },
        }
    }
}

/// One dispatch step's outcome: the reply owed (admin interception only)
/// and the deliveries owed (normal routing only).
pub struct ProcessOutcome {
    pub reply: Option<Reply>,
    pub deliveries: Vec<Delivery>,
}

/// The name at an index of a chat entry's list.
pub open spec fn name_at(c: Seq<(i64, Vec<String>)>, ci: int, j: int) -> Seq<char> {
    c[ci].1@[j]@
}

/// Routing reads only the registry and the per-chat index: two dispatchers
/// equal on those owe the same deliveries.
pub proof fn lemma_route_names_congruence(
    a: Dispatcher,
    b: Dispatcher,
    names: Seq<Seq<char>>,
    u: Update,
)
    requires
        a.modules@ == b.modules@,
    ensures
        a.route_names_spec(names, u) == b.route_names_spec(names, u),
    decreases names.len(),
{
    if names.len() > 0 {
        lemma_route_names_congruence(a, b, names.drop_last(), u);
    }
}

/// The dispatcher's routing state lives in its registry and per-chat index
/// alone: the store handle does not affect it.
pub proof fn lemma_state_congruence(a: Dispatcher, b: Dispatcher)
    requires
        a.modules@ == b.modules@,
        a.chats@ == b.chats@,
    ensures
        a.wf() ==> b.wf(),
        forall|n: Seq<char>| #[trigger] b.has_module(n) == a.has_module(n),
        forall|c: i64| #[trigger] b.active_names(c) == a.active_names(c),
{
    assert(a.reg() == b.reg());
    assert(chats_view(a.chats@) == chats_view(b.chats@));
    assert forall|n: Seq<char>| #[trigger] b.has_module(n) == a.has_module(n) by {}
    assert forall|c: i64| #[trigger] b.active_names(c) == a.active_names(c) by {}
    if a.wf() {
        assert forall|i: int, j: int|
            0 <= i < chats_view(b.chats@).len() && 0 <= j < chats_view(b.chats@)[i].1.len()
            implies b.has_module(#[trigger] chats_view(b.chats@)[i].1[j]) by {
            assert(a.has_module(chats_view(a.chats@)[i].1[j]));
        }
    }
}

pub proof fn lemma_spec_route_congruence(a: Dispatcher, b: Dispatcher, u: Update)
    requires
        a.modules@ == b.modules@,
        a.chats@ == b.chats@,
    ensures
        a.spec_route(u) == b.spec_route(u),
{
    match message_of_update(u) {
        Some(msg) => {
            lemma_route_names_congruence(a, b, a.active_names(msg.chat), u);
        },
        None => {
            lemma_route_names_congruence(a, b, a.names(), u);
        },
    }
}

} // verus!

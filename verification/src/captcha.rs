//! The captcha consumer's decision core: a table of pending challenges
//! keyed by the prompt message id, with the pure decisions of its event
//! loop — what a fresh member's challenge is, which challenges have timed
//! out, and what a callback answer earns the answering user.

use vstd::prelude::*;
use crate::dispatcher::{
    assoc, lemma_assoc_found, lemma_assoc_absent, lemma_assoc_push, lemma_assoc_update,
    lemma_assoc_remove,
};
use crate::text;

verus! {

/// One pending challenge: who must answer, where, when it was posed, and
/// the digit asked for.
#[derive(Clone, Copy, PartialEq, Eq, Structural, Debug)]
pub struct UserCaptcha {
    pub user_id: i64,
    pub chat_id: i64,
    pub date: u64,
    pub task: u8,
}

/// What a callback answer decides: nothing, readmitting the user, or
/// kicking the user.
#[derive(Clone, Copy, PartialEq, Eq, Structural, Debug)]
pub enum CaptchaAction {
    Ignore,
    Allow { chat: i64, user: i64 },
    Kick { chat: i64, user: i64 },
}

/// The pending challenges, keyed by prompt message id.
pub struct CaptchaState {
    pub pending: Vec<(i64, UserCaptcha)>,
}

/// The challenge digit drawn from a fresh random byte: always in 1..=9.
pub fn captcha_task(raw: u8) -> (t: u8)
    ensures
        t == raw % 9 + 1,
        1 <= t <= 9,
{
    raw % 9 + 1
}

/// A challenge posed at `date` has timed out at `now` after a minute.
pub open spec fn is_timed_out(c: UserCaptcha, now: u64) -> bool {
    now > c.date + 60_000
}

/// The ids of the timed-out challenges, in table order.
pub open spec fn timed_out_ids(s: Seq<(i64, UserCaptcha)>, now: u64) -> Seq<i64>
    decreases s.len(),
{
    if s.len() == 0 {
        Seq::empty()
    } else {
        timed_out_ids(s.drop_last(), now) + (if is_timed_out(s.last().1, now) {
            seq![s.last().0]
        } else {
            Seq::empty()
        })
    }
}

/// What an answer of `data` to challenge `c` earns: readmission for the
/// challenge digit (with anything unparseable read as zero), a kick for
/// any other answer.
pub open spec fn answer_action(c: UserCaptcha, chat: i64, data: Seq<char>) -> CaptchaAction {
    let n = match text::parse_u8_spec(data) {
        Some(v) => v,
        None => 0u8,
    };
    if n == c.task {
        CaptchaAction::Allow { chat, user: c.user_id }
    } else {
        CaptchaAction::Kick { chat, user: c.user_id }
    }
}

impl CaptchaState {
    /// The pending challenge sent as message `mid`, if any.
    pub open spec fn lookup(self, mid: i64) -> Option<UserCaptcha> {
        assoc(self.pending@, mid)
    }

    /// Message ids are unique in the table.
    pub open spec fn wf(self) -> bool {
        forall|i: int, j: int|
            0 <= i < j < self.pending@.len() ==> self.pending@[i].0 != self.pending@[j].0
    }

    /// No challenges pending.
    pub fn new() -> (s: CaptchaState)
        ensures
            s.wf(),
            s.pending@.len() == 0,
            forall|mid: i64| s.lookup(mid) is None,
    {
        CaptchaState { pending: Vec::new() }
    }

    /// Records the challenge posed by message `mid`, replacing any
    /// previous entry under that id.
    pub fn register(&mut self, mid: i64, c: UserCaptcha)
        requires
            old(self).wf(),
        ensures
            final(self).wf(),
            final(self).lookup(mid) == Some(c),
            forall|m2: i64| m2 != mid ==> final(self).lookup(m2) == old(self).lookup(m2),
    {
        let ghost s0 = self.pending@;
        let mut i: usize = 0;
        while i < self.pending.len()
            invariant
                0 <= i <= self.pending@.len(),
                self == old(self),
                old(self).wf(),
                s0 == self.pending@,
                forall|j: int| 0 <= j < i ==> (#[trigger] self.pending@[j]).0 != mid,
            decreases self.pending@.len() - i,
        {
            if self.pending[i].0 == mid {
                let pair = self.pending.remove(i);
                self.pending.insert(i, (mid, c));
                proof {
                    assert(self.pending@ =~= s0.update(i as int, (mid, c)));
                    assert forall|m2: i64| #![all_triggers]
                        assoc(self.pending@, m2) == (if m2 == mid {
                            Some(c)
                        } else {
                            assoc(s0, m2)
                        }) by {
                        lemma_assoc_update(s0, i as int, c, m2);
                    }
                }
                return ;
            }
            i = i + 1;
        }
        self.pending.push((mid, c));
        proof {
            assert forall|m2: i64| #![all_triggers]
                assoc(self.pending@, m2) == (if m2 == mid {
                    Some(c)
                } else {
                    assoc(s0, m2)
                }) by {
                lemma_assoc_push(s0, (mid, c), m2);
                if m2 == mid && assoc(s0, m2) is Some {
                    crate::dispatcher::lemma_assoc_some_index(s0, m2);
                }
            }
            assert forall|i2: int, j2: int|
                0 <= i2 < j2 < self.pending@.len() implies self.pending@[i2].0
                != self.pending@[j2].0 by {
                if j2 == s0.len() {
                    assert(self.pending@[i2] == s0[i2]);
                }
            }
        }
    }

    /// The ids of challenges that have gone unanswered for over a minute.
    pub fn timed_out(&self, now: u64) -> (r: Vec<i64>)
        ensures
            r@ == timed_out_ids(self.pending@, now),
    {
        let mut r: Vec<i64> = Vec::new();
        let mut i: usize = 0;
        while i < self.pending.len()
            invariant
                0 <= i <= self.pending@.len(),
                r@ == timed_out_ids(self.pending@.take(i as int), now),
            decreases self.pending@.len() - i,
        {
            let e = &self.pending[i];
            if now > e.1.date && now - e.1.date > 60_000 {
                r.push(e.0);
            }
            proof {
                assert(self.pending@.take(i + 1 as int).drop_last() =~= self.pending@.take(
                    i as int,
                ));
                assert(self.pending@.take(i + 1 as int).last() == self.pending@[i as int]);
                assert(r@ =~= timed_out_ids(self.pending@.take(i + 1 as int), now));
            }
            i = i + 1;
        }
        proof {
            assert(self.pending@.take(self.pending@.len() as int) =~= self.pending@);
        }
        r
    }

    /// Removes and returns the challenge posed by message `mid`.
    pub fn remove(&mut self, mid: i64) -> (r: Option<UserCaptcha>)
        requires
            old(self).wf(),
        ensures
            final(self).wf(),
            r == old(self).lookup(mid),
            final(self).lookup(mid) is None,
            forall|m2: i64| m2 != mid ==> final(self).lookup(m2) == old(self).lookup(m2),
    {
        let ghost s0 = self.pending@;
        let mut i: usize = 0;
        while i < self.pending.len()
            invariant
                0 <= i <= self.pending@.len(),
                self == old(self),
                old(self).wf(),
                s0 == self.pending@,
                forall|j: int| 0 <= j < i ==> (#[trigger] self.pending@[j]).0 != mid,
            decreases self.pending@.len() - i,
        {
            if self.pending[i].0 == mid {
                proof {
                    lemma_assoc_found(s0, i as int, mid);
                }
                let pair = self.pending.remove(i);
                proof {
                    assert forall|i2: int, j2: int|
                        0 <= i2 < j2 < self.pending@.len() implies self.pending@[i2].0
                        != self.pending@[j2].0 by {
                        let a: int = if i2 < i {
                            i2
                        } else {
                            i2 + 1
                        };
                        let b: int = if j2 < i {
                            j2
                        } else {
                            j2 + 1
                        };
                        assert(self.pending@[i2] == s0[a] && self.pending@[j2] == s0[b]);
                    }
                    assert forall|j: int|
                        0 <= j < self.pending@.len() implies (#[trigger] self.pending@[j]).0
                        != mid by {
                        let a: int = if j < i {
                            j
                        } else {
                            j + 1
                        };
                        assert(self.pending@[j] == s0[a]);
                    }
                    lemma_assoc_absent(self.pending@, mid);
                    assert forall|m2: i64| m2 != mid implies #[trigger] assoc(self.pending@, m2)
                        == assoc(s0, m2) by {
                        lemma_assoc_remove(s0, i as int, m2);
                    }
                }
                return Some(pair.1);
            }
            i = i + 1;
        }
        proof {
            lemma_assoc_absent(s0, mid);
        }
        None
    }

    /// Decides a callback answer: unknown prompts and other users'
    /// answers are ignored; the challenged user's answer settles the
    /// challenge (removing it) with readmission exactly for the asked
    /// digit.
    pub fn on_callback(&mut self, mid: i64, chat: i64, from: i64, data: &str) -> (r: CaptchaAction)
        requires
            old(self).wf(),
        ensures
            final(self).wf(),
            old(self).lookup(mid) is None ==> r == CaptchaAction::Ignore && *final(self)
                == *old(self),
            old(self).lookup(mid) matches Some(c) ==> {
                &&& c.user_id != from ==> r == CaptchaAction::Ignore && *final(self) == *old(self)
                &&& c.user_id == from ==> {
                    &&& final(self).lookup(mid) is None
                    &&& (forall|m2: i64|
                        m2 != mid ==> final(self).lookup(m2) == old(self).lookup(m2))
                    &&& r == answer_action(c, chat, data@)
                }
            },
    {
        let cur = self.get(mid);
        match cur {
            None => CaptchaAction::Ignore,
            Some(c) => {
                if c.user_id != from {
                    CaptchaAction::Ignore
                } else {
                    let n = text::parse_u8_or_zero(data);
                    self.remove(mid);
                    if n == c.task {
                        CaptchaAction::Allow { chat, user: c.user_id }
                    } else {
                        CaptchaAction::Kick { chat, user: c.user_id }
                    }
                }
            },
        }
    }

    /// The challenge posed by message `mid`, if any.
    pub fn get(&self, mid: i64) -> (r: Option<UserCaptcha>)
        ensures
            r == self.lookup(mid),
    {
        let mut i: usize = 0;
        while i < self.pending.len()
            invariant
                0 <= i <= self.pending@.len(),
                forall|j: int| 0 <= j < i ==> (#[trigger] self.pending@[j]).0 != mid,
            decreases self.pending@.len() - i,
        {
            if self.pending[i].0 == mid {
                proof {
                    lemma_assoc_found(self.pending@, i as int, mid);
                }
                return Some(self.pending[i].1);
            }
            i = i + 1;
        }
        proof {
            lemma_assoc_absent(self.pending@, mid);
        }
        None
    }
}

} // verus!

//! The quiz consumer's decision core: the table of open polls and per-chat
//! poll counters, the pure decisions of its timer, answer and command
//! loops, and the result-message rendering.

use vstd::prelude::*;
use crate::dispatcher::{
    assoc, lemma_assoc_found, lemma_assoc_absent, lemma_assoc_push, lemma_assoc_update,
    lemma_assoc_remove, lemma_assoc_some_index, names_view,
};
use crate::markdown::escape_seq;
use crate::markdown;
use crate::text;

verus! {

/// One open quiz poll: its poll id, where it runs, the prompt message, the
/// answers gathered so far, the correct option and when it started.
pub struct Poll {
    pub id: String,
    pub chat: i64,
    pub message_id: i64,
    pub correct_answers: Vec<(i64, String)>,
    pub incorrect_answers: Vec<(i64, String)>,
    pub correct_answer: i32,
    pub start: u64,
}

/// The quiz consumer's state: per-chat poll counters and the open polls
/// keyed by poll id.
pub struct PollList {
    pub counts: Vec<(i64, u64)>,
    pub polls: Vec<(String, Poll)>,
}

/// The contents of the poll table.
pub open spec fn polls_view(s: Seq<(String, Poll)>) -> Seq<(Seq<char>, Poll)> {
    s.map_values(|e: (String, Poll)| (e.0@, e.1))
}

/// A poll started at `start` has run out at `now` after fifteen seconds.
pub open spec fn poll_over(p: Poll, now: u64) -> bool {
    now > p.start + 15_000
}

/// The ids of the run-out polls, in table order.
pub open spec fn over_ids(s: Seq<(Seq<char>, Poll)>, now: u64) -> Seq<Seq<char>>
    decreases s.len(),
{
    if s.len() == 0 {
        Seq::empty()
    } else {
        over_ids(s.drop_last(), now) + (if poll_over(s.last().1, now) {
            seq![s.last().0]
        } else {
            Seq::empty()
        })
    }
}

/// The rating change an answer earns: two up for the correct option, one
/// down otherwise.
pub open spec fn rating_delta(p: Poll, option: i32) -> i64 {
    if option == p.correct_answer {
        2i64
    } else {
        -1i64
    }
}

/// `p2` is `p` with one more answer recorded: appended to the correct list
/// for the correct option, to the incorrect list otherwise; everything
/// else untouched.
pub open spec fn recorded(p: Poll, p2: Poll, uid: i64, name: String, option: i32) -> bool {
    &&& p2.id == p.id
    &&& p2.chat == p.chat
    &&& p2.message_id == p.message_id
    &&& p2.correct_answer == p.correct_answer
    &&& p2.start == p.start
    &&& (option == p.correct_answer ==> p2.correct_answers@ == p.correct_answers@.push(
        (uid, name),
    ) && p2.incorrect_answers@ == p.incorrect_answers@)
    &&& (option != p.correct_answer ==> p2.incorrect_answers@ == p.incorrect_answers@.push(
        (uid, name),
    ) && p2.correct_answers@ == p.correct_answers@)
}

/// The index the poll sender marks correct: the last declared-correct
/// answer, as repeated markings overwrite earlier ones.
pub open spec fn last_correct(s: Seq<(String, bool)>) -> Option<int>
    decreases s.len(),
{
    if s.len() == 0 {
        None
    } else if s.last().1 {
        Some(s.len() - 1)
    } else {
        last_correct(s.drop_last())
    }
}

proof fn lemma_last_correct_suffix(s: Seq<(String, bool)>, i: int)
    requires
        0 <= i <= s.len(),
        forall|j: int| i <= j < s.len() ==> !(#[trigger] s[j]).1,
    ensures
        last_correct(s) == last_correct(s.take(i)),
    decreases s.len() - i,
{
    if i == s.len() {
        assert(s.take(i) =~= s);
    } else {
        assert(!s.last().1);
        assert(s.drop_last() =~= s.take(s.len() - 1));
        lemma_last_correct_suffix(s.take(s.len() - 1), i);
        assert(s.take(s.len() - 1).take(i) =~= s.take(i));
    }
}

/// The marked-correct option index of an answer list.
pub fn last_correct_index(answers: &Vec<(String, bool)>) -> (r: Option<usize>)
    ensures
        r is Some <==> last_correct(answers@) is Some,
        r matches Some(i) ==> last_correct(answers@) == Some(i as int),
{
    let mut i: usize = answers.len();
    while i > 0
        invariant
            0 <= i <= answers@.len(),
            forall|j: int| i <= j < answers@.len() ==> !(#[trigger] answers@[j]).1,
        decreases i,
    {
        i = i - 1;
        if answers[i].1 {
            proof {
                lemma_last_correct_suffix(answers@, i + 1);
                assert(answers@.take(i + 1 as int).last() == answers@[i as int]);
            }
            return Some(i);
        }
    }
    proof {
        lemma_last_correct_suffix(answers@, 0);
        assert(answers@.take(0).len() == 0);
    }
    None
}

impl PollList {
    /// The open poll with this id, if any.
    pub open spec fn poll(self, id: Seq<char>) -> Option<Poll> {
        assoc(polls_view(self.polls@), id)
    }

    /// The chat's poll counter, if the chat was seen.
    pub open spec fn count(self, chat: i64) -> Option<u64> {
        assoc(self.counts@, chat)
    }

    /// Poll ids and chat counters are unique.
    pub open spec fn wf(self) -> bool {
        &&& forall|i: int, j: int|
            0 <= i < j < self.polls@.len() ==> polls_view(self.polls@)[i].0 != polls_view(
                self.polls@,
            )[j].0
        &&& forall|i: int, j: int|
            0 <= i < j < self.counts@.len() ==> self.counts@[i].0 != self.counts@[j].0
    }

    /// No polls, no counters.
    pub fn new() -> (s: PollList)
        ensures
            s.wf(),
            s.polls@.len() == 0,
            s.counts@.len() == 0,
    {
        PollList { counts: Vec::new(), polls: Vec::new() }
    }

    /// Opens a poll, keyed by its poll id; a reused id replaces the old
    /// entry.
    pub fn register_poll(&mut self, p: Poll)
        requires
            old(self).wf(),
        ensures
            final(self).wf(),
            final(self).counts@ == old(self).counts@,
            final(self).poll(p.id@) == Some(p),
            forall|id2: Seq<char>| id2 != p.id@ ==> final(self).poll(id2) == old(self).poll(id2),
    {
        let ghost s0 = polls_view(self.polls@);
        let ghost pv = p;
        let key = p.id.clone();
        let mut i: usize = 0;
        while i < self.polls.len()
            invariant
                0 <= i <= self.polls@.len(),
                self == old(self),
                old(self).wf(),
                s0 == polls_view(self.polls@),
                s0.len() == self.polls@.len(),
                key@ == pv.id@,
                p == pv,
                forall|j: int| 0 <= j < i ==> (#[trigger] s0[j]).0 != pv.id@,
            decreases self.polls@.len() - i,
        {
            if self.polls[i].0.eq(&key) {
                let pair = self.polls.remove(i);
                self.polls.insert(i, (key, p));
                proof {
                    assert forall|q: int|
                        0 <= q < polls_view(self.polls@).len() implies polls_view(self.polls@)[q]
                        == s0.update(i as int, (pv.id@, pv))[q] by {
                        assert(polls_view(self.polls@)[q] == (self.polls@[q].0@,
                            self.polls@[q].1));
                    }
                    assert(polls_view(self.polls@) =~= s0.update(i as int, (pv.id@, pv)));
                    assert forall|id2: Seq<char>| #![all_triggers]
                        assoc(polls_view(self.polls@), id2) == (if id2 == pv.id@ {
                            Some(pv)
                        } else {
                            assoc(s0, id2)
                        }) by {
                        lemma_assoc_update(s0, i as int, pv, id2);
                    }
                }
                return ;
            }
            i = i + 1;
        }
        self.polls.push((key, p));
        proof {
            assert forall|q: int|
                0 <= q < polls_view(self.polls@).len() implies polls_view(self.polls@)[q]
                == s0.push((pv.id@, pv))[q] by {
                assert(polls_view(self.polls@)[q] == (self.polls@[q].0@, self.polls@[q].1));
            }
            assert(polls_view(self.polls@) =~= s0.push((pv.id@, pv)));
            assert forall|id2: Seq<char>| #![all_triggers]
                assoc(polls_view(self.polls@), id2) == (if id2 == pv.id@ {
                    Some(pv)
                } else {
                    assoc(s0, id2)
                }) by {
                lemma_assoc_push(s0, (pv.id@, pv), id2);
                if id2 == pv.id@ && assoc(s0, id2) is Some {
                    lemma_assoc_some_index(s0, id2);
                }
            }
            assert forall|i2: int, j2: int|
                0 <= i2 < j2 < self.polls@.len() implies polls_view(self.polls@)[i2].0
                != polls_view(self.polls@)[j2].0 by {
                if j2 == s0.len() {
                    assert(polls_view(self.polls@)[i2] == s0[i2]);
                }
            }
        }
    }

    /// The ids of polls that have run for over fifteen seconds.
    pub fn over_polls(&self, now: u64) -> (r: Vec<String>)
        ensures
            names_view(r@) == over_ids(polls_view(self.polls@), now),
    {
        let ghost s0 = polls_view(self.polls@);
        let mut r: Vec<String> = Vec::new();
        let mut i: usize = 0;
        while i < self.polls.len()
            invariant
                0 <= i <= self.polls@.len(),
                s0 == polls_view(self.polls@),
                s0.len() == self.polls@.len(),
                names_view(r@) == over_ids(s0.take(i as int), now),
            decreases self.polls@.len() - i,
        {
            let e = &self.polls[i];
            if now > e.1.start && now - e.1.start > 15_000 {
                let id = e.0.clone();
                r.push(id);
            }
            proof {
                assert(s0.take(i + 1 as int).drop_last() =~= s0.take(i as int));
                assert(s0.take(i + 1 as int).last() == s0[i as int]);
                assert(s0[i as int] == (self.polls@[i as int].0@, self.polls@[i as int].1));
                assert(names_view(r@) =~= over_ids(s0.take(i + 1 as int), now));
            }
            i = i + 1;
        }
        proof {
            assert(s0.take(s0.len() as int) =~= s0);
        }
        r
    }

    /// Removes and returns the poll with this id.
    pub fn take_poll(&mut self, id: &str) -> (r: Option<Poll>)
        requires
            old(self).wf(),
        ensures
            final(self).wf(),
            final(self).counts@ == old(self).counts@,
            r == old(self).poll(id@),
            final(self).poll(id@) is None,
            forall|id2: Seq<char>| id2 != id@ ==> final(self).poll(id2) == old(self).poll(id2),
    {
        let ghost s0 = polls_view(self.polls@);
        let mut i: usize = 0;
        while i < self.polls.len()
            invariant
                0 <= i <= self.polls@.len(),
                self == old(self),
                old(self).wf(),
                s0 == polls_view(self.polls@),
                s0.len() == self.polls@.len(),
                forall|j: int| 0 <= j < i ==> (#[trigger] s0[j]).0 != id@,
            decreases self.polls@.len() - i,
        {
            if text::str_eq(self.polls[i].0.as_str(), id) {
                proof {
                    lemma_assoc_found(s0, i as int, id@);
                }
                let pair = self.polls.remove(i);
                proof {
                    assert forall|q: int|
                        0 <= q < polls_view(self.polls@).len() implies polls_view(self.polls@)[q]
                        == s0.remove(i as int)[q] by {
                        assert(polls_view(self.polls@)[q] == (self.polls@[q].0@,
                            self.polls@[q].1));
                    }
                    assert(polls_view(self.polls@) =~= s0.remove(i as int));
                    assert forall|i2: int, j2: int|
                        0 <= i2 < j2 < self.polls@.len() implies polls_view(self.polls@)[i2].0
                        != polls_view(self.polls@)[j2].0 by {
                        let a: int = if i2 < i {
                            i2
                        } else {
                            i2 + 1
                        };
                        let b: int = if j2 < i {
                            j2
                        } else {
                            j2 + 1
                        };
                        assert(polls_view(self.polls@)[i2] == s0[a] && polls_view(
                            self.polls@,
                        )[j2] == s0[b]);
                    }
                    assert forall|j: int|
                        0 <= j < polls_view(self.polls@).len() implies (#[trigger] polls_view(
                        self.polls@)[j]).0 != id@ by {
                        let a: int = if j < i {
                            j
                        } else {
                            j + 1
                        };
                        assert(polls_view(self.polls@)[j] == s0[a]);
                    }
                    lemma_assoc_absent(polls_view(self.polls@), id@);
                    assert forall|id2: Seq<char>| id2 != id@ implies #[trigger] assoc(
                        polls_view(self.polls@),
                        id2,
                    ) == assoc(s0, id2) by {
                        lemma_assoc_remove(s0, i as int, id2);
                    }
                }
                return Some(pair.1);
            }
            i = i + 1;
        }
        proof {
            lemma_assoc_absent(s0, id@);
        }
        None
    }

    /// Records a poll answer: the answering user joins the correct or
    /// incorrect list of the poll and earns the corresponding rating
    /// change; an unknown poll id changes nothing.
    pub fn record_answer(&mut self, poll_id: &str, uid: i64, name: String, option: i32) -> (r:
        Option<i64>)
        requires
            old(self).wf(),
        ensures
            final(self).wf(),
            final(self).counts@ == old(self).counts@,
            old(self).poll(poll_id@) is None ==> r is None && final(self).polls@ == old(
                self,
            ).polls@,
            old(self).poll(poll_id@) matches Some(p) ==> {
                &&& r == Some(rating_delta(p, option))
                &&& (final(self).poll(poll_id@) matches Some(p2) && recorded(
                    p,
                    p2,
                    uid,
                    name,
                    option,
                ))
                &&& (forall|id2: Seq<char>|
                    id2 != poll_id@ ==> final(self).poll(id2) == old(self).poll(id2))
            },
    {
        let ghost s0 = polls_view(self.polls@);
        let mut i: usize = 0;
        while i < self.polls.len()
            invariant
                0 <= i <= self.polls@.len(),
                self == old(self),
                old(self).wf(),
                s0 == polls_view(self.polls@),
                s0.len() == self.polls@.len(),
                forall|j: int| 0 <= j < i ==> (#[trigger] s0[j]).0 != poll_id@,
            decreases self.polls@.len() - i,
        {
            if text::str_eq(self.polls[i].0.as_str(), poll_id) {
                proof {
                    lemma_assoc_found(s0, i as int, poll_id@);
                }
                let pair = self.polls.remove(i);
                let key = pair.0;
                let mut p = pair.1;
                let ghost p0 = p;
                let delta: i64;
                if option == p.correct_answer {
                    p.correct_answers.push((uid, name));
                    delta = 2;
                } else {
                    p.incorrect_answers.push((uid, name));
                    delta = -1;
                }
                let ghost p2 = p;
                self.polls.insert(i, (key, p));
                proof {
                    assert(recorded(p0, p2, uid, name, option));
                    assert forall|q: int|
                        0 <= q < polls_view(self.polls@).len() implies polls_view(self.polls@)[q]
                        == s0.update(i as int, (poll_id@, p2))[q] by {
                        assert(polls_view(self.polls@)[q] == (self.polls@[q].0@,
                            self.polls@[q].1));
                    }
                    assert(polls_view(self.polls@) =~= s0.update(i as int, (poll_id@, p2)));
                    assert forall|id2: Seq<char>| #![all_triggers]
                        assoc(polls_view(self.polls@), id2) == (if id2 == poll_id@ {
                            Some(p2)
                        } else {
                            assoc(s0, id2)
                        }) by {
                        lemma_assoc_update(s0, i as int, p2, id2);
                    }
                }
                return Some(delta);
            }
            i = i + 1;
        }
        proof {
            lemma_assoc_absent(s0, poll_id@);
        }
        None
    }

    /// The `/quiz` guard: whether a new poll may start in the chat. The
    /// first request for a chat, or one arriving when its counter is zero,
    /// claims the counter; a chat with a poll in flight is refused.
    pub fn try_begin(&mut self, chat: i64) -> (r: bool)
        requires
            old(self).wf(),
        ensures
            final(self).wf(),
            final(self).polls@ == old(self).polls@,
            old(self).count(chat) is None ==> r && final(self).count(chat) == Some(1u64),
            old(self).count(chat) matches Some(c) ==> {
                &&& c > 0 ==> !r && final(self).counts@ == old(self).counts@
                &&& c == 0 ==> r && final(self).count(chat) == Some(1u64)
            },
            forall|c2: i64| c2 != chat ==> final(self).count(c2) == old(self).count(c2),
    {
        let ghost s0 = self.counts@;
        let mut i: usize = 0;
        while i < self.counts.len()
            invariant
                0 <= i <= self.counts@.len(),
                self == old(self),
                old(self).wf(),
                s0 == self.counts@,
                forall|j: int| 0 <= j < i ==> (#[trigger] s0[j]).0 != chat,
            decreases self.counts@.len() - i,
        {
            if self.counts[i].0 == chat {
                proof {
                    lemma_assoc_found(s0, i as int, chat);
                }
                if self.counts[i].1 > 0 {
                    return false;
                }
                self.counts.remove(i);
                self.counts.insert(i, (chat, 1));
                proof {
                    assert(self.counts@ =~= s0.update(i as int, (chat, 1u64)));
                    assert forall|c2: i64| #![all_triggers]
                        assoc(self.counts@, c2) == (if c2 == chat {
                            Some(1u64)
                        } else {
                            assoc(s0, c2)
                        }) by {
                        lemma_assoc_update(s0, i as int, 1u64, c2);
                    }
                }
                return true;
            }
            i = i + 1;
        }
        self.counts.push((chat, 1));
        proof {
            lemma_assoc_absent(s0, chat);
            assert forall|c2: i64| #![all_triggers]
                assoc(self.counts@, c2) == (if c2 == chat {
                    Some(1u64)
                } else {
                    assoc(s0, c2)
                }) by {
                lemma_assoc_push(s0, (chat, 1u64), c2);
                if c2 == chat && assoc(s0, c2) is Some {
                    lemma_assoc_some_index(s0, c2);
                }
            }
            assert forall|i2: int, j2: int|
                0 <= i2 < j2 < self.counts@.len() implies self.counts@[i2].0
                != self.counts@[j2].0 by {
                if j2 == s0.len() {
                    assert(self.counts@[i2] == s0[i2]);
                }
            }
        }
        true
    }

    /// Settles a chat's counter when one of its polls ran out: a poll that
    /// drew answers keeps the counter (a follow-up poll starts); one that
    /// drew none releases a counter that stands at one. Anything else
    /// means the counter went inconsistent, reported as `false`.
    pub fn note_expired(&mut self, chat: i64, had_answers: bool) -> (r: bool)
        requires
            old(self).wf(),
        ensures
            final(self).wf(),
            final(self).polls@ == old(self).polls@,
            had_answers ==> r && final(self).counts@ == old(self).counts@,
            !had_answers ==> {
                &&& old(self).count(chat) == Some(1u64) ==> r && final(self).count(chat) == Some(
                    0u64,
                ) && (forall|c2: i64| c2 != chat ==> final(self).count(c2) == old(self).count(c2))
                &&& old(self).count(chat) != Some(1u64) ==> !r && final(self).counts@ == old(
                    self,
                ).counts@
            },
    {
        if had_answers {
            return true;
        }
        let ghost s0 = self.counts@;
        let mut i: usize = 0;
        while i < self.counts.len()
            invariant
                0 <= i <= self.counts@.len(),
                self == old(self),
                old(self).wf(),
                !had_answers,
                s0 == self.counts@,
                forall|j: int| 0 <= j < i ==> (#[trigger] s0[j]).0 != chat,
            decreases self.counts@.len() - i,
        {
            if self.counts[i].0 == chat {
                proof {
                    lemma_assoc_found(s0, i as int, chat);
                }
                if self.counts[i].1 != 1 {
                    return false;
                }
                self.counts.remove(i);
                self.counts.insert(i, (chat, 0));
                proof {
                    assert(self.counts@ =~= s0.update(i as int, (chat, 0u64)));
                    assert forall|c2: i64| #![all_triggers]
                        assoc(self.counts@, c2) == (if c2 == chat {
                            Some(0u64)
                        } else {
                            assoc(s0, c2)
                        }) by {
                        lemma_assoc_update(s0, i as int, 0u64, c2);
                    }
                }
                return true;
            }
            i = i + 1;
        }
        proof {
            lemma_assoc_absent(s0, chat);
        }
        false
    }
}

/// One listed name in bold, MarkdownV2-escaped.
pub open spec fn item_seq(name: Seq<char>) -> Seq<char> {
    seq!['*'] + escape_seq(name) + seq!['*']
}

/// The rendered list of answerers: their names in bold, comma-separated.
pub open spec fn user_list_seq(s: Seq<(i64, String)>) -> Seq<char>
    decreases s.len(),
{
    if s.len() == 0 {
        Seq::empty()
    } else if s.len() == 1 {
        item_seq(s[0].1@)
    } else {
        user_list_seq(s.drop_last()) + seq![',', ' '] + item_seq(s.last().1@)
    }
}

/// Renders the answerer list of one side of a poll.
pub fn user_list(data: &Vec<(i64, String)>) -> (r: String)
    ensures
        r@ == user_list_seq(data@),
{
    let mut out: Vec<char> = Vec::new();
    let mut i: usize = 0;
    while i < data.len()
        invariant
            0 <= i <= data@.len(),
            out@ == user_list_seq(data@.take(i as int)),
        decreases data@.len() - i,
    {
        if i > 0 {
            out.push(',');
            out.push(' ');
        }
        out.push('*');
        let escaped = markdown::escape(data[i].1.as_str());
        let mut ev = text::str_chars(escaped.as_str());
        out.append(&mut ev);
        out.push('*');
        proof {
            let t1 = data@.take(i + 1 as int);
            assert(t1.drop_last() =~= data@.take(i as int));
            assert(t1.last() == data@[i as int]);
            if i == 0 {
                assert(t1[0] == data@[0]);
                assert(out@ =~= item_seq(data@[0].1@));
            } else {
                assert(out@ =~= user_list_seq(data@.take(i as int)) + seq![',', ' ']
                    + item_seq(data@[i as int].1@));
            }
        }
        i = i + 1;
    }
    proof {
        assert(data@.take(data@.len() as int) =~= data@);
    }
    text::chars_str(&out)
}

/// The result message of a run-out poll: a taunt when nobody answered,
/// else the lists of right and wrong answerers.
pub open spec fn spec_poll_result(p: Poll) -> Seq<char> {
    if p.correct_answers@.len() == 0 && p.incorrect_answers@.len() == 0 {
        escape_seq("Никто не ответил:с\n        Ну и сами себе вопросы загадывайте!"@)
    } else {
        (if p.correct_answers@.len() > 0 {
            "Список Кодзим: "@ + user_list_seq(p.correct_answers@)
        } else {
            Seq::<char>::empty()
        }) + (if p.incorrect_answers@.len() > 0 {
            "\nСписок дэбилов: "@ + user_list_seq(p.incorrect_answers@)
        } else {
            Seq::<char>::empty()
        })
    }
}

/// Renders a run-out poll's result message.
pub fn poll_result(poll: &Poll) -> (r: String)
    ensures
        r@ == spec_poll_result(*poll),
{
    if poll.correct_answers.len() == 0 && poll.incorrect_answers.len() == 0 {
        markdown::escape("Никто не ответил:с\n        Ну и сами себе вопросы загадывайте!")
    } else {
        let mut out: Vec<char> = Vec::new();
        if poll.correct_answers.len() > 0 {
            let mut head = text::str_chars("Список Кодзим: ");
            out.append(&mut head);
            let l = user_list(&poll.correct_answers);
            let mut lv = text::str_chars(l.as_str());
            out.append(&mut lv);
        }
        if poll.incorrect_answers.len() > 0 {
            let mut head = text::str_chars("\nСписок дэбилов: ");
            out.append(&mut head);
            let l = user_list(&poll.incorrect_answers);
            let mut lv = text::str_chars(l.as_str());
            out.append(&mut lv);
        }
        proof {
            assert(out@ =~= spec_poll_result(*poll));
        }
        text::chars_str(&out)
    }
}

} // verus!

//! The session store: the one shared mutable resource of the system.
//!
//! It owns per-(chat, user) conversation state, per-chat simulated
//! portfolios and watchlists, the registry of chats ever seen, and the ban
//! and premium sets. Nothing outside this module mutates these collections
//! directly; the conversation engine goes through the operations here. The
//! caller serializes access (one lock around the whole store), which is what
//! makes each operation atomic with respect to the others.

use crate::bytes::copy_bytes;
use crate::portfolio::Portfolio;
use vstd::prelude::*;

verus! {

/// Where one (chat, user) pair stands in the conversation: idle, or waiting
/// for one specific piece of free text.
#[derive(Clone, Copy, Debug, PartialEq, Eq, Structural)]
pub enum ConversationState {
    Idle,
    AwaitingCrypto,
    AwaitingStock,
    AwaitingSolana,
    AwaitingRealBuy,
    AwaitingBuyTicker,
    AwaitingSellTicker,
    AwaitingAddWatchlist,
    AwaitingAdminBroadcast,
    AwaitingAdminBan,
    AwaitingAdminUnban,
    AwaitingAdminGift,
    AwaitingAdminDirectMsg,
    AwaitingAdminAddGroup,
    AwaitingAdminRemoveGroup,
}

/// Whether an id-keyed association list has an entry for `key`.
pub open spec fn akey_has<V>(s: Seq<(i64, V)>, key: i64) -> bool {
    exists|i: int| 0 <= i < s.len() && (#[trigger] s[i]).0 == key
}

/// The index of the entry for `key` (meaningful when `akey_has`).
pub open spec fn akey_at<V>(s: Seq<(i64, V)>, key: i64) -> int {
    choose|i: int| 0 <= i < s.len() && (#[trigger] s[i]).0 == key
}

/// Keys occur at most once.
pub open spec fn akeys_unique<V>(s: Seq<(i64, V)>) -> bool {
    forall|i: int, j: int| 0 <= i < j < s.len() ==> (#[trigger] s[i]).0 != (#[trigger] s[j]).0
}

/// With unique keys, any index holding `key` is the one `akey_at` names.
proof fn lemma_akey_at_is<V>(s: Seq<(i64, V)>, key: i64, i: int)
    requires
        akeys_unique(s),
        0 <= i < s.len(),
        s[i].0 == key,
    ensures
        akey_has(s, key),
        akey_at(s, key) == i,
{
    assert(akey_has(s, key));
    let j = akey_at(s, key);
    if i < j {
        assert(s[i].0 != s[j].0);
    } else if j < i {
        assert(s[j].0 != s[i].0);
    }
}

/// First index with an entry for `key`, if any.
fn assoc_find<V>(entries: &Vec<(i64, V)>, key: i64) -> (r: Option<usize>)
    ensures
        match r {
            Some(i) => i < entries@.len() && entries@[i as int].0 == key,
            None => !akey_has(entries@, key),
        },
{
    let mut i: usize = 0;
    while i < entries.len()
        invariant
            0 <= i <= entries@.len(),
            forall|j: int| 0 <= j < i ==> (#[trigger] entries@[j]).0 != key,
        decreases entries@.len() - i,
    {
        if entries[i].0 == key {
            return Some(i);
        }
        i = i + 1;
    }
    None
}

/// Whether the id list contains `id`.
fn ids_contains(v: &Vec<i64>, id: i64) -> (r: bool)
    ensures
        r == v@.contains(id),
{
    let mut i: usize = 0;
    while i < v.len()
        invariant
            0 <= i <= v@.len(),
            forall|j: int| 0 <= j < i ==> v@[j] != id,
        decreases v@.len() - i,
    {
        if v[i] == id {
            return true;
        }
        i = i + 1;
    }
    proof {
        assert(!v@.contains(id));
    }
    false
}

/// Counts the administrator panel reports, one per owned collection.
#[derive(Clone, Copy, Debug, PartialEq, Eq, Structural)]
pub struct StoreStats {
    pub users: usize,
    pub banned: usize,
    pub premium_users: usize,
    pub premium_groups: usize,
    pub portfolios: usize,
    pub watchlists: usize,
}

/// The process-wide shared state: one value, serialized by the caller.
#[derive(Debug)]
pub struct SessionStore {
    pub states: Vec<(i64, u64, ConversationState)>,
    pub portfolios: Vec<(i64, Portfolio)>,
    pub watchlists: Vec<(i64, Vec<Vec<u8>>)>,
    pub users: Vec<i64>,
    pub banned: Vec<i64>,
    pub premium_users: Vec<i64>,
    pub premium_groups: Vec<i64>,
}

/// Whether the state table has an entry for the session (chat, user).
pub open spec fn skey_has(s: Seq<(i64, u64, ConversationState)>, chat: i64, user: u64) -> bool {
    exists|i: int|
        0 <= i < s.len() && (#[trigger] s[i]).0 == chat && s[i].1 == user
}

/// The index of the session's entry (meaningful when `skey_has`).
pub open spec fn skey_at(s: Seq<(i64, u64, ConversationState)>, chat: i64, user: u64) -> int {
    choose|i: int| 0 <= i < s.len() && (#[trigger] s[i]).0 == chat && s[i].1 == user
}

/// Sessions occur at most once.
pub open spec fn skeys_unique(s: Seq<(i64, u64, ConversationState)>) -> bool {
    forall|i: int, j: int|
        0 <= i < j < s.len() ==> ((#[trigger] s[i]).0 != (#[trigger] s[j]).0 || s[i].1 != s[j].1)
}

proof fn lemma_skey_at_is(s: Seq<(i64, u64, ConversationState)>, chat: i64, user: u64, i: int)
    requires
        skeys_unique(s),
        0 <= i < s.len(),
        s[i].0 == chat,
        s[i].1 == user,
    ensures
        skey_has(s, chat, user),
        skey_at(s, chat, user) == i,
{
    assert(skey_has(s, chat, user));
    let j = skey_at(s, chat, user);
    if i < j {
        assert(s[i].0 != s[j].0 || s[i].1 != s[j].1);
    } else if j < i {
        assert(s[j].0 != s[i].0 || s[j].1 != s[i].1);
    }
}

impl SessionStore {
    /// The conversation state of a session; `Idle` until something is set.
    pub open spec fn state_of(self, chat: i64, user: u64) -> ConversationState {
        if skey_has(self.states@, chat, user) {
            self.states@[skey_at(self.states@, chat, user)].2
        } else {
            ConversationState::Idle
        }
    }

    /// The portfolio stored for a chat, if one exists yet.
    pub open spec fn portfolio_of(self, chat: i64) -> Option<Portfolio> {
        if akey_has(self.portfolios@, chat) {
            Some(self.portfolios@[akey_at(self.portfolios@, chat)].1)
        } else {
            None
        }
    }

    /// The watchlist of a chat, as a sequence of tickers; empty by default.
    pub open spec fn watchlist_of(self, chat: i64) -> Seq<Seq<u8>> {
        if akey_has(self.watchlists@, chat) {
            self.watchlists@[akey_at(self.watchlists@, chat)].1.deep_view()
        } else {
            Seq::empty()
        }
    }

    /// All collections have unique keys, and every stored portfolio is well
    /// formed. Every operation preserves this.
    pub open spec fn wf(self) -> bool {
        &&& skeys_unique(self.states@)
        &&& akeys_unique(self.portfolios@)
        &&& akeys_unique(self.watchlists@)
        &&& self.users@.no_duplicates()
        &&& self.banned@.no_duplicates()
        &&& self.premium_users@.no_duplicates()
        &&& self.premium_groups@.no_duplicates()
        &&& forall|i: int|
            0 <= i < self.portfolios@.len() ==> (#[trigger] self.portfolios@[i]).1.wf()
    }

    /// Everything except the state table is as it was.
    pub open spec fn same_but_states(self, other: SessionStore) -> bool {
        &&& self.portfolios@ == other.portfolios@
        &&& self.watchlists@ == other.watchlists@
        &&& self.users@ == other.users@
        &&& self.banned@ == other.banned@
        &&& self.premium_users@ == other.premium_users@
        &&& self.premium_groups@ == other.premium_groups@
    }

    /// An empty store: no sessions, no accounts, nobody seen yet.
    pub fn new() -> (s: SessionStore)
        ensures
            s.wf(),
            s.states@.len() == 0,
            s.portfolios@.len() == 0,
            s.watchlists@.len() == 0,
            s.users@.len() == 0,
            s.banned@.len() == 0,
            s.premium_users@.len() == 0,
            s.premium_groups@.len() == 0,
    {
        SessionStore {
            states: Vec::new(),
            portfolios: Vec::new(),
            watchlists: Vec::new(),
            users: Vec::new(),
            banned: Vec::new(),
            premium_users: Vec::new(),
            premium_groups: Vec::new(),
        }
    }

    /// The session's conversation state (`Idle` if none was ever set).
    pub fn get_state(&self, chat: i64, user: u64) -> (r: ConversationState)
        requires
            self.wf(),
        ensures
            r == self.state_of(chat, user),
    {
        let mut i: usize = 0;
        while i < self.states.len()
            invariant
                self.wf(),
                0 <= i <= self.states@.len(),
                forall|j: int|
                    0 <= j < i ==> ((#[trigger] self.states@[j]).0 != chat || self.states@[j].1
                        != user),
            decreases self.states@.len() - i,
        {
            let e = self.states[i];
            if e.0 == chat && e.1 == user {
                proof {
                    lemma_skey_at_is(self.states@, chat, user, i as int);
                }
                return e.2;
            }
            i = i + 1;
        }
        proof {
            assert(!skey_has(self.states@, chat, user));
        }
        ConversationState::Idle
    }

    /// Overwrite the session's conversation state. No other session and no
    /// other collection changes.
    pub fn set_state(&mut self, chat: i64, user: u64, st: ConversationState)
        requires
            old(self).wf(),
        ensures
            final(self).wf(),
            final(self).state_of(chat, user) == st,
            forall|c: i64, u: u64|
                !(c == chat && u == user) ==> final(self).state_of(c, u) == old(self).state_of(
                    c,
                    u,
                ),
            final(self).same_but_states(*old(self)),
    {
        let ghost s0 = self.states@;
        let mut i: usize = 0;
        let n = self.states.len();
        while i < n
            invariant
                0 <= i <= n,
                n == self.states@.len(),
                *self == *old(self),
                self.wf(),
                self.states@ == s0,
                forall|j: int|
                    0 <= j < i ==> ((#[trigger] self.states@[j]).0 != chat || self.states@[j].1
                        != user),
            decreases n - i,
        {
            let e = self.states[i];
            if e.0 == chat && e.1 == user {
                self.states[i] = (chat, user, st);
                proof {
                    let s1 = self.states@;
                    lemma_skey_at_is(s0, chat, user, i as int);
                    assert forall|a: int, b: int| 0 <= a < b < s1.len() implies ((
                    #[trigger] s1[a]).0 != (#[trigger] s1[b]).0 || s1[a].1 != s1[b].1) by {
                        assert(s0[a].0 != s0[b].0 || s0[a].1 != s0[b].1);
                    }
                    lemma_skey_at_is(s1, chat, user, i as int);
                    assert forall|c: i64, u: u64| !(c == chat && u == user) implies final(self).state_of(c, u) == old(self).state_of(c, u) by {
                        if skey_has(s0, c, u) {
                            let j = skey_at(s0, c, u);
                            assert(j != i);
                            assert(s1[j] == s0[j]);
                            lemma_skey_at_is(s1, c, u, j);
                        } else {
                            if skey_has(s1, c, u) {
                                let j = skey_at(s1, c, u);
                                assert(s1[j].0 == c && s1[j].1 == u);
                                assert(j != i);
                                assert(s0[j] == s1[j]);
                                assert(skey_has(s0, c, u));
                            }
                        }
                    }
                }
                return ;
            }
            i = i + 1;
        }
        self.states.push((chat, user, st));
        proof {
            let s1 = self.states@;
            assert forall|a: int, b: int| 0 <= a < b < s1.len() implies ((#[trigger] s1[a]).0 != (
            #[trigger] s1[b]).0 || s1[a].1 != s1[b].1) by {
                if b < s0.len() {
                    assert(s0[a].0 != s0[b].0 || s0[a].1 != s0[b].1);
                } else {
                    assert(s1[b].0 == chat && s1[b].1 == user);
                    assert(s0[a].0 != chat || s0[a].1 != user);
                }
            }
            lemma_skey_at_is(s1, chat, user, s0.len() as int);
            assert forall|c: i64, u: u64| !(c == chat && u == user) implies final(self).state_of(c, u) == old(self).state_of(c, u) by {
                if skey_has(s0, c, u) {
                    let j = skey_at(s0, c, u);
                    assert(s1[j] == s0[j]);
                    lemma_skey_at_is(s1, c, u, j);
                } else {
                    if skey_has(s1, c, u) {
                        let j = skey_at(s1, c, u);
                        assert(s1[j].0 == c && s1[j].1 == u);
                        assert(j != s0.len());
                        assert(s0[j] == s1[j]);
                        assert(skey_has(s0, c, u));
                    }
                }
            }
        }
    }

    /// Record that a chat has been seen. The registry only grows, in
    /// first-seen order, without duplicates.
    pub fn register_user(&mut self, chat: i64)
        requires
            old(self).wf(),
        ensures
            final(self).wf(),
            old(self).users@.contains(chat) ==> final(self).users@ == old(self).users@,
            !old(self).users@.contains(chat) ==> final(self).users@ == old(self).users@.push(chat),
            final(self).users@.contains(chat),
            final(self).states@ == old(self).states@,
            final(self).portfolios@ == old(self).portfolios@,
            final(self).watchlists@ == old(self).watchlists@,
            final(self).banned@ == old(self).banned@,
            final(self).premium_users@ == old(self).premium_users@,
            final(self).premium_groups@ == old(self).premium_groups@,
    {
        if !ids_contains(&self.users, chat) {
            self.users.push(chat);
            proof {
                assert(final(self).users@.last() == chat);
                assert(final(self).users@.contains(chat));
            }
        }
    }

    /// Is the chat banned?
    pub fn is_banned(&self, chat: i64) -> (r: bool)
        ensures
            r == self.banned@.contains(chat),
    {
        ids_contains(&self.banned, chat)
    }

    /// Add a chat to the ban set (idempotent).
    pub fn ban(&mut self, chat: i64)
        requires
            old(self).wf(),
        ensures
            final(self).wf(),
            final(self).banned@.contains(chat),
            forall|c: i64| final(self).banned@.contains(c) == (old(self).banned@.contains(c) || c
                == chat),
            final(self).states@ == old(self).states@,
            final(self).portfolios@ == old(self).portfolios@,
            final(self).watchlists@ == old(self).watchlists@,
            final(self).users@ == old(self).users@,
            final(self).premium_users@ == old(self).premium_users@,
            final(self).premium_groups@ == old(self).premium_groups@,
    {
        if !ids_contains(&self.banned, chat) {
            self.banned.push(chat);
            proof {
                assert(final(self).banned@.last() == chat);
                assert forall|c: i64| final(self).banned@.contains(c) == (old(self).banned@.contains(c) || c == chat) by {
                    let s0 = old(self).banned@;
                    let s1 = final(self).banned@;
                    if s1.contains(c) {
                        let k = choose|k: int| 0 <= k < s1.len() && s1[k] == c;
                        if k < s0.len() {
                            assert(s0.contains(c));
                        }
                    }
                    if s0.contains(c) {
                        let k = choose|k: int| 0 <= k < s0.len() && s0[k] == c;
                        assert(s1[k] == c);
                        assert(s1.contains(c));
                    }
                }
            }
        }
    }

    /// Remove a chat from the ban set (idempotent).
    pub fn unban(&mut self, chat: i64)
        requires
            old(self).wf(),
        ensures
            final(self).wf(),
            !final(self).banned@.contains(chat),
            forall|c: i64| c != chat ==> final(self).banned@.contains(c) == old(
                self,
            ).banned@.contains(c),
            final(self).states@ == old(self).states@,
            final(self).portfolios@ == old(self).portfolios@,
            final(self).watchlists@ == old(self).watchlists@,
            final(self).users@ == old(self).users@,
            final(self).premium_users@ == old(self).premium_users@,
            final(self).premium_groups@ == old(self).premium_groups@,
    {
        let ghost s0 = self.banned@;
        let mut i: usize = 0;
        let n = self.banned.len();
        while i < n
            invariant
                0 <= i <= n,
                n == self.banned@.len(),
                *self == *old(self),
                self.wf(),
                self.banned@ == s0,
                forall|j: int| 0 <= j < i ==> s0[j] != chat,
            decreases n - i,
        {
            if self.banned[i] == chat {
                self.banned.remove(i);
                proof {
                    let s1 = final(self).banned@;
                    assert(s1 == s0.remove(i as int));
                    // With no duplicates the removed id occurs nowhere else.
                    assert forall|j: int| 0 <= j < s1.len() implies s1[j] != chat by {
                        let j0 = if j < i {
                            j
                        } else {
                            j + 1
                        };
                        assert(s1[j] == s0[j0]);
                        if j0 < i {
                            assert(s0[j0] != s0[i as int]);
                        } else if i < j0 {
                            assert(s0[i as int] != s0[j0]);
                        }
                    }
                    assert(!s1.contains(chat));
                    assert forall|c: i64| c != chat implies s1.contains(c) == s0.contains(c) by {
                        if s0.contains(c) {
                            let k = choose|k: int| 0 <= k < s0.len() && s0[k] == c;
                            if k < i {
                                assert(s1[k] == c);
                            } else {
                                assert(k != i);
                                assert(s1[k - 1] == c);
                            }
                            assert(s1.contains(c));
                        }
                        if s1.contains(c) {
                            let k = choose|k: int| 0 <= k < s1.len() && s1[k] == c;
                            let k0 = if k < i {
                                k
                            } else {
                                k + 1
                            };
                            assert(s0[k0] == c);
                            assert(s0.contains(c));
                        }
                    }
                    assert(s1.no_duplicates()) by {
                        assert forall|a: int, b: int|
                            0 <= a < b < s1.len() implies s1[a] != s1[b] by {
                            let a0 = if a < i {
                                a
                            } else {
                                a + 1
                            };
                            let b0 = if b < i {
                                b
                            } else {
                                b + 1
                            };
                            assert(s1[a] == s0[a0]);
                            assert(s1[b] == s0[b0]);
                            assert(s0[a0] != s0[b0]);
                        }
                    }
                }
                return ;
            }
            i = i + 1;
        }
        proof {
            assert(!s0.contains(chat));
        }
    }

    /// Mark a chat as premium (idempotent).
    pub fn grant_premium(&mut self, chat: i64)
        requires
            old(self).wf(),
        ensures
            final(self).wf(),
            final(self).premium_users@.contains(chat),
            forall|c: i64| final(self).premium_users@.contains(c) == (old(
                self,
            ).premium_users@.contains(c) || c == chat),
            final(self).states@ == old(self).states@,
            final(self).portfolios@ == old(self).portfolios@,
            final(self).watchlists@ == old(self).watchlists@,
            final(self).users@ == old(self).users@,
            final(self).banned@ == old(self).banned@,
            final(self).premium_groups@ == old(self).premium_groups@,
    {
        if !ids_contains(&self.premium_users, chat) {
            self.premium_users.push(chat);
            proof {
                assert(final(self).premium_users@.last() == chat);
                assert forall|c: i64| final(self).premium_users@.contains(c) == (old(self).premium_users@.contains(c) || c == chat) by {
                    let s0 = old(self).premium_users@;
                    let s1 = final(self).premium_users@;
                    if s1.contains(c) {
                        let k = choose|k: int| 0 <= k < s1.len() && s1[k] == c;
                        if k < s0.len() {
                            assert(s0.contains(c));
                        }
                    }
                    if s0.contains(c) {
                        let k = choose|k: int| 0 <= k < s0.len() && s0[k] == c;
                        assert(s1[k] == c);
                        assert(s1.contains(c));
                    }
                }
            }
        }
    }

    /// A snapshot of every chat id ever seen, in first-seen order; safe to
    /// iterate without holding the store.
    pub fn all_user_ids(&self) -> (r: Vec<i64>)
        ensures
            r@ == self.users@,
    {
        let mut r: Vec<i64> = Vec::new();
        let mut i: usize = 0;
        while i < self.users.len()
            invariant
                0 <= i <= self.users@.len(),
                r@ == self.users@.subrange(0, i as int),
            decreases self.users@.len() - i,
        {
            let id = self.users[i];
            r.push(id);
            proof {
                assert(r@ =~= self.users@.subrange(0, i + 1 as int));
            }
            i = i + 1;
        }
        proof {
            assert(self.users@.subrange(0, self.users@.len() as int) =~= self.users@);
        }
        r
    }

    /// Mark a chat as a premium group (idempotent).
    pub fn add_premium_group(&mut self, chat: i64)
        requires
            old(self).wf(),
        ensures
            final(self).wf(),
            final(self).premium_groups@.contains(chat),
            forall|c: i64| final(self).premium_groups@.contains(c) == (old(self).premium_groups@.contains(c) || c == chat),
            final(self).states@ == old(self).states@,
            final(self).portfolios@ == old(self).portfolios@,
            final(self).watchlists@ == old(self).watchlists@,
            final(self).users@ == old(self).users@,
            final(self).banned@ == old(self).banned@,
            final(self).premium_users@ == old(self).premium_users@,
    {
        if !ids_contains(&self.premium_groups, chat) {
            self.premium_groups.push(chat);
            proof {
                assert(final(self).premium_groups@.last() == chat);
                assert forall|c: i64| final(self).premium_groups@.contains(c) == (old(self).premium_groups@.contains(c) || c == chat) by {
                    let s0 = old(self).premium_groups@;
                    let s1 = final(self).premium_groups@;
                    if s1.contains(c) {
                        let k = choose|k: int| 0 <= k < s1.len() && s1[k] == c;
                        if k < s0.len() {
                            assert(s0.contains(c));
                        }
                    }
                    if s0.contains(c) {
                        let k = choose|k: int| 0 <= k < s0.len() && s0[k] == c;
                        assert(s1[k] == c);
                        assert(s1.contains(c));
                    }
                }
            }
        }
    }

    /// Remove a chat from the premium groups (idempotent).
    pub fn remove_premium_group(&mut self, chat: i64)
        requires
            old(self).wf(),
        ensures
            final(self).wf(),
            !final(self).premium_groups@.contains(chat),
            forall|c: i64| c != chat ==> final(self).premium_groups@.contains(c) == old(self).premium_groups@.contains(c),
            final(self).states@ == old(self).states@,
            final(self).portfolios@ == old(self).portfolios@,
            final(self).watchlists@ == old(self).watchlists@,
            final(self).users@ == old(self).users@,
            final(self).banned@ == old(self).banned@,
            final(self).premium_users@ == old(self).premium_users@,
    {
        let ghost s0 = self.premium_groups@;
        let mut i: usize = 0;
        let n = self.premium_groups.len();
        while i < n
            invariant
                0 <= i <= n,
                n == self.premium_groups@.len(),
                *self == *old(self),
                self.wf(),
                self.premium_groups@ == s0,
                forall|j: int| 0 <= j < i ==> s0[j] != chat,
            decreases n - i,
        {
            if self.premium_groups[i] == chat {
                self.premium_groups.remove(i);
                proof {
                    let s1 = final(self).premium_groups@;
                    assert(s1 == s0.remove(i as int));
                    assert forall|j: int| 0 <= j < s1.len() implies s1[j] != chat by {
                        let j0 = if j < i {
                            j
                        } else {
                            j + 1
                        };
                        assert(s1[j] == s0[j0]);
                        if j0 < i {
                            assert(s0[j0] != s0[i as int]);
                        } else if i < j0 {
                            assert(s0[i as int] != s0[j0]);
                        }
                    }
                    assert(!s1.contains(chat));
                    assert forall|c: i64| c != chat implies s1.contains(c) == s0.contains(c) by {
                        if s0.contains(c) {
                            let k = choose|k: int| 0 <= k < s0.len() && s0[k] == c;
                            if k < i {
                                assert(s1[k] == c);
                            } else {
                                assert(k != i);
                                assert(s1[k - 1] == c);
                            }
                            assert(s1.contains(c));
                        }
                        if s1.contains(c) {
                            let k = choose|k: int| 0 <= k < s1.len() && s1[k] == c;
                            let k0 = if k < i {
                                k
                            } else {
                                k + 1
                            };
                            assert(s0[k0] == c);
                            assert(s0.contains(c));
                        }
                    }
                    assert(s1.no_duplicates()) by {
                        assert forall|a: int, b: int|
                            0 <= a < b < s1.len() implies s1[a] != s1[b] by {
                            let a0 = if a < i {
                                a
                            } else {
                                a + 1
                            };
                            let b0 = if b < i {
                                b
                            } else {
                                b + 1
                            };
                            assert(s1[a] == s0[a0]);
                            assert(s1[b] == s0[b0]);
                            assert(s0[a0] != s0[b0]);
                        }
                    }
                }
                return ;
            }
            i = i + 1;
        }
        proof {
            assert(!s0.contains(chat));
        }
    }

    /// Take the portfolio of a chat out of the store, initializing a fresh
    /// one on first access. The chat's entry is gone until `put_portfolio`
    /// returns it; the caller does both within one exclusive section.
    pub fn take_portfolio(&mut self, chat: i64) -> (p: Portfolio)
        requires
            old(self).wf(),
        ensures
            final(self).wf(),
            p.wf(),
            match old(self).portfolio_of(chat) {
                Some(q) => p == q,
                None => p.cash.num == crate::portfolio::INITIAL_CASH && p.cash.den == 1
                    && p.holdings@.len() == 0 && p.gains.num == 0 && p.losses.num == 0,
            },
            !akey_has(final(self).portfolios@, chat),
            forall|c: i64| c != chat ==> final(self).portfolio_of(c) == old(self).portfolio_of(c),
            final(self).states@ == old(self).states@,
            final(self).watchlists@ == old(self).watchlists@,
            final(self).users@ == old(self).users@,
            final(self).banned@ == old(self).banned@,
            final(self).premium_users@ == old(self).premium_users@,
            final(self).premium_groups@ == old(self).premium_groups@,
    {
        let ghost s0 = self.portfolios@;
        let found = assoc_find(&self.portfolios, chat);
        match found {
            Some(i) => {
                proof {
                    lemma_akey_at_is(s0, chat, i as int);
                }
                let entry = self.portfolios.remove(i);
                proof {
                    let s1 = final(self).portfolios@;
                    assert(s1 == s0.remove(i as int));
                    assert forall|a: int, b: int| 0 <= a < b < s1.len() implies (
                    #[trigger] s1[a]).0 != (#[trigger] s1[b]).0 by {
                        let a0 = if a < i {
                            a
                        } else {
                            a + 1
                        };
                        let b0 = if b < i {
                            b
                        } else {
                            b + 1
                        };
                        assert(s1[a] == s0[a0]);
                        assert(s1[b] == s0[b0]);
                        assert(s0[a0].0 != s0[b0].0);
                    }
                    assert forall|j: int| 0 <= j < s1.len() implies (#[trigger] s1[j]).0
                        != chat by {
                        let j0 = if j < i {
                            j
                        } else {
                            j + 1
                        };
                        assert(s1[j] == s0[j0]);
                        if j0 < i {
                            assert(s0[j0].0 != s0[i as int].0);
                        } else if i < j0 {
                            assert(s0[i as int].0 != s0[j0].0);
                        }
                    }
                    assert forall|j: int| 0 <= j < s1.len() implies (#[trigger] s1[j]).1.wf() by {
                        let j0 = if j < i {
                            j
                        } else {
                            j + 1
                        };
                        assert(s1[j] == s0[j0]);
                        assert(s0[j0].1.wf());
                    }
                    assert forall|c: i64| c != chat implies final(self).portfolio_of(c) == old(
                        self,
                    ).portfolio_of(c) by {
                        if akey_has(s0, c) {
                            let k = akey_at(s0, c);
                            assert(s0[k].0 == c);
                            assert(k != i);
                            let k1 = if k < i {
                                k
                            } else {
                                k - 1
                            };
                            assert(s1[k1] == s0[k]);
                            lemma_akey_at_is(s1, c, k1);
                        } else {
                            if akey_has(s1, c) {
                                let k = akey_at(s1, c);
                                let k0 = if k < i {
                                    k
                                } else {
                                    k + 1
                                };
                                assert(s0[k0] == s1[k]);
                                assert(akey_has(s0, c));
                            }
                        }
                    }
                }
                entry.1
            },
            None => {
                proof {
                    assert forall|c: i64| c != chat implies final(self).portfolio_of(c) == old(
                        self,
                    ).portfolio_of(c) by {
                    }
                }
                Portfolio::new()
            },
        }
    }

    /// Return a portfolio taken with `take_portfolio`.
    pub fn put_portfolio(&mut self, chat: i64, p: Portfolio)
        requires
            old(self).wf(),
            p.wf(),
            !akey_has(old(self).portfolios@, chat),
        ensures
            final(self).wf(),
            final(self).portfolio_of(chat) == Some(p),
            forall|c: i64| c != chat ==> final(self).portfolio_of(c) == old(self).portfolio_of(c),
            final(self).states@ == old(self).states@,
            final(self).watchlists@ == old(self).watchlists@,
            final(self).users@ == old(self).users@,
            final(self).banned@ == old(self).banned@,
            final(self).premium_users@ == old(self).premium_users@,
            final(self).premium_groups@ == old(self).premium_groups@,
    {
        let ghost s0 = self.portfolios@;
        self.portfolios.push((chat, p));
        proof {
            let s1 = final(self).portfolios@;
            assert forall|a: int, b: int| 0 <= a < b < s1.len() implies (#[trigger] s1[a]).0 != (
            #[trigger] s1[b]).0 by {
                if b < s0.len() {
                    assert(s0[a].0 != s0[b].0);
                } else {
                    assert(s1[b].0 == chat);
                    assert(s0[a].0 != chat);
                }
            }
            assert forall|j: int| 0 <= j < s1.len() implies (#[trigger] s1[j]).1.wf() by {
                if j < s0.len() {
                    assert(s0[j].1.wf());
                }
            }
            lemma_akey_at_is(s1, chat, s0.len() as int);
            assert forall|c: i64| c != chat implies final(self).portfolio_of(c) == old(
                self,
            ).portfolio_of(c) by {
                if akey_has(s0, c) {
                    let k = akey_at(s0, c);
                    assert(s1[k] == s0[k]);
                    lemma_akey_at_is(s1, c, k);
                } else {
                    if akey_has(s1, c) {
                        let k = akey_at(s1, c);
                        assert(s1[k].0 == c);
                        assert(k != s0.len());
                        assert(s0[k] == s1[k]);
                        assert(akey_has(s0, c));
                    }
                }
            }
        }
    }

    /// Append a ticker to a chat's watchlist. The list is append-only and
    /// order-preserving: the new list is exactly the old list with the
    /// ticker at the end, duplicates and all. No other chat's list changes.
    pub fn watchlist_add(&mut self, chat: i64, ticker: &Vec<u8>)
        requires
            old(self).wf(),
        ensures
            final(self).wf(),
            final(self).watchlist_of(chat) == old(self).watchlist_of(chat).push(ticker@),
            forall|c: i64| c != chat ==> final(self).watchlist_of(c) == old(self).watchlist_of(c),
            final(self).states@ == old(self).states@,
            final(self).portfolios@ == old(self).portfolios@,
            final(self).users@ == old(self).users@,
            final(self).banned@ == old(self).banned@,
            final(self).premium_users@ == old(self).premium_users@,
            final(self).premium_groups@ == old(self).premium_groups@,
    {
        let ghost s0 = self.watchlists@;
        let t = copy_bytes(ticker);
        let found = assoc_find(&self.watchlists, chat);
        match found {
            Some(i) => {
                proof {
                    lemma_akey_at_is(s0, chat, i as int);
                }
                let ghost old_list = self.watchlists@[i as int].1.deep_view();
                let entry = &mut vstd::std_specs::vec::vec_index_mut(&mut self.watchlists, i).1;
                entry.push(t);
                proof {
                    let s1 = final(self).watchlists@;
                    assert forall|a: int, b: int| 0 <= a < b < s1.len() implies (
                    #[trigger] s1[a]).0 != (#[trigger] s1[b]).0 by {
                        assert(s0[a].0 != s0[b].0);
                    }
                    lemma_akey_at_is(s1, chat, i as int);
                    assert(s1[i as int].1.deep_view() =~~= old_list.push(ticker@));
                    assert forall|c: i64| c != chat implies final(self).watchlist_of(c) == old(
                        self,
                    ).watchlist_of(c) by {
                        if akey_has(s0, c) {
                            let k = akey_at(s0, c);
                            assert(k != i);
                            assert(s1[k] == s0[k]);
                            lemma_akey_at_is(s1, c, k);
                        } else {
                            if akey_has(s1, c) {
                                let k = akey_at(s1, c);
                                assert(s1[k].0 == c);
                                assert(k != i);
                                assert(s0[k] == s1[k]);
                                assert(akey_has(s0, c));
                            }
                        }
                    }
                }
            },
            None => {
                let mut list: Vec<Vec<u8>> = Vec::new();
                list.push(t);
                proof {
                    assert(list@.len() == 1);
                }
                self.watchlists.push((chat, list));
                proof {
                    let s1 = final(self).watchlists@;
                    assert forall|a: int, b: int| 0 <= a < b < s1.len() implies (
                    #[trigger] s1[a]).0 != (#[trigger] s1[b]).0 by {
                        if b < s0.len() {
                            assert(s0[a].0 != s0[b].0);
                        } else {
                            assert(s1[b].0 == chat);
                            assert(s0[a].0 != chat);
                        }
                    }
                    lemma_akey_at_is(s1, chat, s0.len() as int);
                    assert(s1[s0.len() as int].1.deep_view() =~~= old(self).watchlist_of(
                        chat,
                    ).push(ticker@));
                    assert forall|c: i64| c != chat implies final(self).watchlist_of(c) == old(
                        self,
                    ).watchlist_of(c) by {
                        if akey_has(s0, c) {
                            let k = akey_at(s0, c);
                            assert(s1[k] == s0[k]);
                            lemma_akey_at_is(s1, c, k);
                        } else {
                            if akey_has(s1, c) {
                                let k = akey_at(s1, c);
                                assert(s1[k].0 == c);
                                assert(k != s0.len());
                                assert(s0[k] == s1[k]);
                                assert(akey_has(s0, c));
                            }
                        }
                    }
                }
            },
        }
    }

    /// A copy of a chat's watchlist, in insertion order.
    pub fn watchlist_items(&self, chat: i64) -> (r: Vec<Vec<u8>>)
        requires
            self.wf(),
        ensures
            r.deep_view() == self.watchlist_of(chat),
    {
        let found = assoc_find(&self.watchlists, chat);
        match found {
            Some(i) => {
                proof {
                    lemma_akey_at_is(self.watchlists@, chat, i as int);
                }
                let list = &self.watchlists[i].1;
                let mut r: Vec<Vec<u8>> = Vec::new();
                let mut k: usize = 0;
                while k < list.len()
                    invariant
                        0 <= k <= list@.len(),
                        r.deep_view() =~~= list.deep_view().subrange(0, k as int),
                    decreases list@.len() - k,
                {
                    let item = copy_bytes(&list[k]);
                    let ghost prev = r.deep_view();
                    let ghost item_view = item@;
                    r.push(item);
                    proof {
                        assert(r.deep_view() =~~= prev.push(item_view));
                        assert(r.deep_view() =~~= list.deep_view().subrange(0, k + 1 as int));
                    }
                    k = k + 1;
                }
                proof {
                    assert(r.deep_view() =~~= list.deep_view());
                }
                r
            },
            None => {
                let r: Vec<Vec<u8>> = Vec::new();
                proof {
                    assert(r.deep_view() =~~= Seq::<Seq<u8>>::empty());
                }
                r
            },
        }
    }

    /// Empty a chat's watchlist. No other chat's list changes.
    pub fn watchlist_clear(&mut self, chat: i64)
        requires
            old(self).wf(),
        ensures
            final(self).wf(),
            final(self).watchlist_of(chat) == Seq::<Seq<u8>>::empty(),
            forall|c: i64| c != chat ==> final(self).watchlist_of(c) == old(self).watchlist_of(c),
            final(self).states@ == old(self).states@,
            final(self).portfolios@ == old(self).portfolios@,
            final(self).users@ == old(self).users@,
            final(self).banned@ == old(self).banned@,
            final(self).premium_users@ == old(self).premium_users@,
            final(self).premium_groups@ == old(self).premium_groups@,
    {
        let ghost s0 = self.watchlists@;
        let found = assoc_find(&self.watchlists, chat);
        match found {
            Some(i) => {
                proof {
                    lemma_akey_at_is(s0, chat, i as int);
                }
                self.watchlists.remove(i);
                proof {
                    let s1 = final(self).watchlists@;
                    assert(s1 == s0.remove(i as int));
                    assert forall|a: int, b: int| 0 <= a < b < s1.len() implies (
                    #[trigger] s1[a]).0 != (#[trigger] s1[b]).0 by {
                        let a0 = if a < i {
                            a
                        } else {
                            a + 1
                        };
                        let b0 = if b < i {
                            b
                        } else {
                            b + 1
                        };
                        assert(s1[a] == s0[a0]);
                        assert(s1[b] == s0[b0]);
                        assert(s0[a0].0 != s0[b0].0);
                    }
                    assert forall|j: int| 0 <= j < s1.len() implies (#[trigger] s1[j]).0
                        != chat by {
                        let j0 = if j < i {
                            j
                        } else {
                            j + 1
                        };
                        assert(s1[j] == s0[j0]);
                        if j0 < i {
                            assert(s0[j0].0 != s0[i as int].0);
                        } else if i < j0 {
                            assert(s0[i as int].0 != s0[j0].0);
                        }
                    }
                    assert forall|c: i64| c != chat implies final(self).watchlist_of(c) == old(
                        self,
                    ).watchlist_of(c) by {
                        if akey_has(s0, c) {
                            let k = akey_at(s0, c);
                            assert(s0[k].0 == c);
                            assert(k != i);
                            let k1 = if k < i {
                                k
                            } else {
                                k - 1
                            };
                            assert(s1[k1] == s0[k]);
                            lemma_akey_at_is(s1, c, k1);
                        } else {
                            if akey_has(s1, c) {
                                let k = akey_at(s1, c);
                                let k0 = if k < i {
                                    k
                                } else {
                                    k + 1
                                };
                                assert(s0[k0] == s1[k]);
                                assert(akey_has(s0, c));
                            }
                        }
                    }
                }
            },
            None => {
            },
        }
    }

    /// The symbols of the chat's holdings, in storage order; empty when the
    /// chat has no portfolio yet.
    pub fn holding_symbols(&self, chat: i64) -> (r: Vec<Vec<u8>>)
        requires
            self.wf(),
        ensures
            r.deep_view() == match self.portfolio_of(chat) {
                Some(p) => p.holdings@.map_values(|h: crate::portfolio::Holding| h.symbol@),
                None => Seq::<Seq<u8>>::empty(),
            },
    {
        let found = assoc_find(&self.portfolios, chat);
        match found {
            Some(i) => {
                proof {
                    lemma_akey_at_is(self.portfolios@, chat, i as int);
                }
                let hs = &self.portfolios[i].1.holdings;
                let mut r: Vec<Vec<u8>> = Vec::new();
                let mut k: usize = 0;
                while k < hs.len()
                    invariant
                        0 <= k <= hs@.len(),
                        r.deep_view() =~~= hs@.subrange(0, k as int).map_values(
                            |h: crate::portfolio::Holding| h.symbol@,
                        ),
                    decreases hs@.len() - k,
                {
                    let item = copy_bytes(&hs[k].symbol);
                    let ghost prev = r.deep_view();
                    let ghost item_view = item@;
                    r.push(item);
                    proof {
                        assert(r.deep_view() =~~= prev.push(item_view));
                        assert(hs@.subrange(0, k + 1 as int).drop_last() =~= hs@.subrange(
                            0,
                            k as int,
                        ));
                        assert(r.deep_view() =~~= hs@.subrange(0, k + 1 as int).map_values(
                            |h: crate::portfolio::Holding| h.symbol@,
                        ));
                    }
                    k = k + 1;
                }
                proof {
                    assert(hs@.subrange(0, hs@.len() as int) =~= hs@);
                    assert(r.deep_view() =~~= hs@.map_values(
                        |h: crate::portfolio::Holding| h.symbol@,
                    ));
                }
                r
            },
            None => {
                let r: Vec<Vec<u8>> = Vec::new();
                proof {
                    assert(r.deep_view() =~~= Seq::<Seq<u8>>::empty());
                }
                r
            },
        }
    }

    /// Whether the chat currently holds the symbol: false when the chat has
    /// no portfolio yet or no position in it.
    pub fn has_holding(&self, chat: i64, symbol: &Vec<u8>) -> (r: bool)
        requires
            self.wf(),
        ensures
            r == match self.portfolio_of(chat) {
                Some(p) => crate::portfolio::has_sym(p.holdings@, symbol@),
                None => false,
            },
    {
        let found = assoc_find(&self.portfolios, chat);
        match found {
            Some(i) => {
                proof {
                    lemma_akey_at_is(self.portfolios@, chat, i as int);
                }
                let hs = &self.portfolios[i].1.holdings;
                let mut k: usize = 0;
                while k < hs.len()
                    invariant
                        self.wf(),
                        i < self.portfolios@.len(),
                        self.portfolios@[i as int].0 == chat,
                        hs@ == self.portfolios@[i as int].1.holdings@,
                        0 <= k <= hs@.len(),
                        forall|j: int|
                            0 <= j < k ==> (#[trigger] hs@[j]).symbol@ != symbol@,
                    decreases hs@.len() - k,
                {
                    if crate::bytes::bytes_eq(&hs[k].symbol, symbol) {
                        proof {
                            lemma_akey_at_is(self.portfolios@, chat, i as int);
                            assert(crate::portfolio::has_sym(hs@, symbol@));
                        }
                        return true;
                    }
                    k = k + 1;
                }
                proof {
                    assert(!crate::portfolio::has_sym(hs@, symbol@));
                }
                false
            },
            None => false,
        }
    }

    /// The valuation report for a chat, at the prices the caller fetched:
    /// the stored portfolio's report, or a fresh portfolio's (initial cash,
    /// no positions) when the chat has none yet.
    pub fn valuation_for(
        &self,
        chat: i64,
        prices: &Vec<(Vec<u8>, Option<u64>)>,
    ) -> (s: crate::portfolio::PortfolioSnapshot)
        requires
            self.wf(),
        ensures
            match self.portfolio_of(chat) {
                Some(p) => s.cash == p.cash && s.positions@.len() == p.holdings@.len() && (forall|
                    j: int,
                |
                    0 <= j < p.holdings@.len() ==> crate::portfolio::position_valued(
                        #[trigger] p.holdings@[j],
                        crate::portfolio::price_for(prices@, p.holdings@[j].symbol@),
                        s.positions@[j],
                    )) && s.total == crate::portfolio::total_from(p.cash, s.positions@, 0),
                None => s.cash.num == crate::portfolio::INITIAL_CASH && s.cash.den == 1
                    && s.positions@.len() == 0 && s.total == Some(s.cash),
            },
    {
        let found = assoc_find(&self.portfolios, chat);
        match found {
            Some(i) => {
                proof {
                    lemma_akey_at_is(self.portfolios@, chat, i as int);
                }
                self.portfolios[i].1.valuation(prices)
            },
            None => {
                let fresh = Portfolio::new();
                let s = fresh.valuation(prices);
                s
            },
        }
    }

    /// The collection sizes the administrator panel reports.
    pub fn stats(&self) -> (r: StoreStats)
        ensures
            r.users == self.users@.len(),
            r.banned == self.banned@.len(),
            r.premium_users == self.premium_users@.len(),
            r.premium_groups == self.premium_groups@.len(),
            r.portfolios == self.portfolios@.len(),
            r.watchlists == self.watchlists@.len(),
    {
        StoreStats {
            users: self.users.len(),
            banned: self.banned.len(),
            premium_users: self.premium_users.len(),
            premium_groups: self.premium_groups.len(),
            portfolios: self.portfolios.len(),
            watchlists: self.watchlists.len(),
        }
    }
}

} // verus!

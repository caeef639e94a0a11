//! Standing searches: what to re-run later, and when.
//!
//! The store is a plain list persisted as a JSON file by the application; every
//! decision taken on it lives here, synchronous and pure.

use crate::i18n::Lang;
use crate::seqs::{first_where, lemma_filter_prefix, lemma_first_where_found};
use crate::text::{
    ascii_lower, ascii_lowercase, chars_eq_ignore_ascii_case, chars_of, eq_ignore_ascii_case, str_eq,
    trim, trim_chars,
};
use vstd::prelude::*;

verus! {

/// A moment of the system clock.
#[verifier::external_type_specification]
#[verifier::external_body]
pub struct ExSystemTime(std::time::SystemTime);

/// `SystemTime::now`: the current time of the system clock. The clock
/// decides it, so nothing is promised of it.
#[verifier::external_body]
fn clock_now() -> std::time::SystemTime {
    std::time::SystemTime::now()
}

/// `SystemTime::duration_since` the Unix epoch: how long after the epoch a
/// moment is, or `None` for a moment before it. Nothing is promised of the
/// duration, which comes from the clock.
#[verifier::external_body]
fn since_epoch(moment: std::time::SystemTime) -> Option<std::time::Duration> {
    match moment.duration_since(std::time::UNIX_EPOCH) {
        Ok(d) => Some(d),
        Err(_) => None,
    }
}

/// `Duration::as_secs`: the whole seconds of a duration. Nothing is stated
/// of the value, as the duration itself is opaque here.
#[verifier::external_body]
fn whole_seconds(d: std::time::Duration) -> u64 {
    d.as_secs()
}

/// A clock reading as a timestamp: the whole seconds since the Unix epoch
/// (`None` for a clock set before it, which reads as 0), taken as an `i64`
/// the way `as` converts it.
pub fn epoch_seconds(since: Option<u64>) -> (r: i64)
    ensures
        r == match since {
            Some(s) => s as i64,
            None => 0,
        },
{
    match since {
        Some(s) => s as i64,
        None => 0,
    }
}

/// Seconds since the Unix epoch, or 0 when the clock is set before it.
pub fn now_secs() -> i64 {
    let since = match since_epoch(clock_now()) {
        Some(d) => Some(whole_seconds(d)),
        None => None,
    };
    epoch_seconds(since)
}

/// A standing search.
#[derive(Debug, Clone, PartialEq, Eq)]
pub struct Watch {
    pub id: u64,
    pub user_id: u64,
    pub channel_id: u64,
    /// Scopes the moderator view: an admin of one server has no business
    /// seeing, or stopping, what someone set up in another.
    pub guild_id: Option<u64>,
    pub query: String,
    pub created_at: i64,
    pub last_checked_at: i64,
    pub checks: u32,
    /// The language the notification should use; the user's Discord locale is
    /// not reachable from the background task.
    pub lang: Lang,
    /// Set once the user has been told the book showed up. The watch then stops
    /// searching but stays listed until the download actually happens.
    pub notified_at: Option<i64>,
}

/// Whether a watch is to be searched again at `now`.
pub open spec fn due_at(w: Watch, now: i64, interval: i64) -> bool {
    w.notified_at is None && now - w.last_checked_at >= interval
}

/// Whether a watch has run for `max_age` seconds or more at `now`.
pub open spec fn expired_at(w: Watch, now: i64, max_age: i64) -> bool {
    now - w.created_at >= max_age
}

/// `now - w.last_checked_at` is computed only for a watch still searching,
/// and must then fit in an `i64`.
pub open spec fn due_computable(w: Watch, now: i64) -> bool {
    w.notified_at is None ==> i64::MIN <= now - w.last_checked_at <= i64::MAX
}

impl Watch {
    /// A field-for-field copy.
    pub fn duplicate(&self) -> (w: Watch)
        ensures
            w == *self,
    {
        Watch {
            id: self.id,
            user_id: self.user_id,
            channel_id: self.channel_id,
            guild_id: self.guild_id,
            query: self.query.clone(),
            created_at: self.created_at,
            last_checked_at: self.last_checked_at,
            checks: self.checks,
            lang: self.lang,
            notified_at: self.notified_at,
        }
    }

    pub fn is_due(&self, now: i64, interval: i64) -> (b: bool)
        requires
            due_computable(*self, now),
        ensures
            b == due_at(*self, now, interval),
    {
        self.notified_at.is_none() && now - self.last_checked_at >= interval
    }

    pub fn is_expired(&self, now: i64, max_age: i64) -> (b: bool)
        requires
            i64::MIN <= now - self.created_at <= i64::MAX,
        ensures
            b == expired_at(*self, now, max_age),
    {
        now - self.created_at >= max_age
    }
}

/// What a caller supplies to open a watch; the rest is bookkeeping.
#[derive(Debug, Clone, PartialEq, Eq)]
pub struct NewWatch {
    pub user_id: u64,
    pub channel_id: u64,
    pub guild_id: Option<u64>,
    pub query: String,
    pub lang: Lang,
}

/// Why a watch could not be created.
#[derive(Debug, Clone, Copy, PartialEq, Eq, Structural)]
pub enum RejectedWatch {
    AlreadyWatching,
    TooMany,
}

/// The whole file, and every decision taken on it.
#[derive(Debug, Default, PartialEq, Eq)]
pub struct State {
    next_id: u64,
    watches: Vec<Watch>,
}

/// What a [`State`] holds: the last id handed out and the watches in the
/// order they were added.
pub struct StateView {
    pub next_id: nat,
    pub watches: Seq<Watch>,
}

impl View for State {
    type V = StateView;

    closed spec fn view(&self) -> StateView {
        StateView { next_id: self.next_id as nat, watches: self.watches@ }
    }
}

/// Ids increase along the list and none exceeds the last one handed out, so
/// no two watches share an id and a new one never reuses an old one.
pub open spec fn well_formed(s: StateView) -> bool {
    &&& forall|i: int, j: int|
        0 <= i < j < s.watches.len() ==> #[trigger] s.watches[i].id < #[trigger] s.watches[j].id
    &&& forall|i: int| 0 <= i < s.watches.len() ==> #[trigger] s.watches[i].id <= s.next_id
}

/// Watches belonging to one user.
pub open spec fn owned_by(user_id: u64) -> spec_fn(Watch) -> bool {
    |w: Watch| w.user_id == user_id
}

/// Watches belonging to one server.
pub open spec fn in_guild(guild_id: u64) -> spec_fn(Watch) -> bool {
    |w: Watch| w.guild_id == Some(guild_id)
}

/// The watch with an id, if its owner is `user_id`.
pub open spec fn owned_with_id(id: u64, user_id: u64) -> spec_fn(Watch) -> bool {
    |w: Watch| w.id == id && w.user_id == user_id
}

/// The watch with an id, if it belongs to the server `guild_id`.
pub open spec fn guild_with_id(id: u64, guild_id: u64) -> spec_fn(Watch) -> bool {
    |w: Watch| w.id == id && w.guild_id == Some(guild_id)
}

/// The watch with an id.
pub open spec fn with_id(id: u64) -> spec_fn(Watch) -> bool {
    |w: Watch| w.id == id
}

/// Watches due at `now`.
pub open spec fn is_due_at(now: i64, interval: i64) -> spec_fn(Watch) -> bool {
    |w: Watch| due_at(w, now, interval)
}

/// Watches that have expired at `now`.
pub open spec fn is_expired_at(now: i64, max_age: i64) -> spec_fn(Watch) -> bool {
    |w: Watch| expired_at(w, now, max_age)
}

/// Watches that have not expired at `now`.
pub open spec fn is_young_at(now: i64, max_age: i64) -> spec_fn(Watch) -> bool {
    |w: Watch| !expired_at(w, now, max_age)
}

/// The watches a download of `query` by `user_id` fulfils: the same user, and
/// the same words once trimmed and compared without ASCII case.
pub open spec fn fulfils(user_id: u64, query: Seq<char>) -> spec_fn(Watch) -> bool {
    |w: Watch| w.user_id == user_id && eq_ignore_ascii_case(trim(w.query@), trim(query))
}

/// The watches such a download leaves in place.
pub open spec fn keeps(user_id: u64, query: Seq<char>) -> spec_fn(Watch) -> bool {
    |w: Watch| !(w.user_id == user_id && eq_ignore_ascii_case(trim(w.query@), trim(query)))
}

/// A watch marked as found at `now`.
pub open spec fn notified(w: Watch, now: i64) -> Watch {
    Watch { notified_at: Some(now), ..w }
}

/// A watch marked as checked at `now`.
pub open spec fn checked(w: Watch, now: i64) -> Watch {
    Watch { last_checked_at: now, checks: (w.checks + 1) as u32, ..w }
}

/// The wait before a watch is checked again can be computed without overflow.
pub open spec fn wait_computable(w: Watch, now: i64, interval: i64) -> bool {
    w.notified_at is None ==> {
        &&& i64::MIN <= w.last_checked_at + interval <= i64::MAX
        &&& i64::MIN <= w.last_checked_at + interval - now <= i64::MAX
    }
}

/// Seconds until the earliest of these watches still searching is due, never
/// below zero; `None` when none is searching.
pub open spec fn next_due(s: Seq<Watch>, now: i64, interval: i64) -> Option<int>
    decreases s.len(),
{
    if s.len() == 0 {
        None
    } else {
        let before = next_due(s.drop_last(), now, interval);
        let w = s.last();
        if w.notified_at is Some {
            before
        } else {
            let raw = w.last_checked_at + interval - now;
            let wait = if raw < 0 { 0 } else { raw };
            match before {
                None => Some(wait),
                Some(b) => Some(if wait < b { wait } else { b }),
            }
        }
    }
}

/// Why `new` would be refused, if it would.
pub open spec fn rejection(s: StateView, new: NewWatch, max_per_user: usize) -> Option<
    RejectedWatch,
> {
    if exists|i: int|
        0 <= i < s.watches.len() && (#[trigger] s.watches[i]).user_id == new.user_id
            && s.watches[i].query@ == new.query@ {
        Some(RejectedWatch::AlreadyWatching)
    } else if s.watches.filter(owned_by(new.user_id)).len() >= max_per_user {
        Some(RejectedWatch::TooMany)
    } else {
        None
    }
}

/// The watch `add` creates for `new` at `now`.
pub open spec fn created(s: StateView, new: NewWatch, now: i64) -> Watch {
    Watch {
        id: (s.next_id + 1) as u64,
        user_id: new.user_id,
        channel_id: new.channel_id,
        guild_id: new.guild_id,
        query: new.query,
        created_at: now,
        last_checked_at: now,
        checks: 0,
        lang: new.lang,
        notified_at: None,
    }
}

/// The outcome of removing the first watch that `p` selects.
pub open spec fn removed_where(
    old: StateView,
    new: StateView,
    p: spec_fn(Watch) -> bool,
    r: Option<Watch>,
) -> bool {
    &&& new.next_id == old.next_id
    &&& match first_where(old.watches, p) {
        Some(i) => r == Some(old.watches[i]) && new.watches == old.watches.remove(i),
        None => r is None && new.watches == old.watches,
    }
}

/// Filtering keeps ids increasing and keeps only watches of the list.
proof fn lemma_filter_well_formed(s: StateView, p: spec_fn(Watch) -> bool)
    requires
        well_formed(s),
    ensures
        well_formed(StateView { next_id: s.next_id, watches: s.watches.filter(p) }),
        forall|i: int|
            0 <= i < s.watches.filter(p).len() ==> s.watches.contains(
                #[trigger] s.watches.filter(p)[i],
            ),
    decreases s.watches.len(),
{
    reveal(Seq::filter);
    if s.watches.len() > 0 {
        let before = StateView { next_id: s.next_id, watches: s.watches.drop_last() };
        lemma_filter_well_formed(before, p);
        let f = s.watches.drop_last().filter(p);
        let last = s.watches.last();
        assert forall|i: int| 0 <= i < f.len() implies (#[trigger] f[i]).id < last.id by {
            assert(s.watches.drop_last().contains(f[i]));
            let j = choose|j: int| 0 <= j < s.watches.drop_last().len() && s.watches.drop_last()[j] == f[i];
            assert(s.watches[j] == f[i]);
            assert(s.watches[j].id < s.watches[s.watches.len() - 1].id);
        }
        assert forall|i: int| 0 <= i < s.watches.filter(p).len() implies s.watches.contains(
            #[trigger] s.watches.filter(p)[i],
        ) by {
            if p(last) && i == f.len() {
                assert(s.watches[s.watches.len() - 1] == s.watches.filter(p)[i]);
            } else {
                assert(s.watches.filter(p)[i] == f[i]);
                assert(s.watches.drop_last().contains(f[i]));
                let j = choose|j: int| 0 <= j < s.watches.drop_last().len() && s.watches.drop_last()[j] == f[i];
                assert(s.watches[j] == f[i]);
            }
        }
        assert forall|i: int| 0 <= i < s.watches.filter(p).len() implies #[trigger] s.watches.filter(p)[i].id <= s.next_id by {
            assert(s.watches.contains(s.watches.filter(p)[i]));
        }
    }
}

/// Removing one watch keeps the list well formed.
proof fn lemma_remove_well_formed(s: StateView, i: int)
    requires
        well_formed(s),
        0 <= i < s.watches.len(),
    ensures
        well_formed(StateView { next_id: s.next_id, watches: s.watches.remove(i) }),
{
    let r = s.watches.remove(i);
    assert forall|a: int, b: int| 0 <= a < b < r.len() implies #[trigger] r[a].id < #[trigger] r[b].id by {
        let a2 = if a < i { a } else { a + 1 };
        let b2 = if b < i { b } else { b + 1 };
        assert(r[a] == s.watches[a2]);
        assert(r[b] == s.watches[b2]);
    }
    assert forall|a: int| 0 <= a < r.len() implies #[trigger] r[a].id <= s.next_id by {
        let a2 = if a < i { a } else { a + 1 };
        assert(r[a] == s.watches[a2]);
    }
}

/// Replacing a watch by one with the same id keeps the list well formed.
proof fn lemma_update_well_formed(s: StateView, i: int, w: Watch)
    requires
        well_formed(s),
        0 <= i < s.watches.len(),
        w.id == s.watches[i].id,
    ensures
        well_formed(StateView { next_id: s.next_id, watches: s.watches.update(i, w) }),
{
    let r = s.watches.update(i, w);
    assert forall|a: int, b: int| 0 <= a < b < r.len() implies #[trigger] r[a].id < #[trigger] r[b].id by {
        assert(r[a].id == s.watches[a].id);
        assert(r[b].id == s.watches[b].id);
    }
    assert forall|a: int| 0 <= a < r.len() implies #[trigger] r[a].id <= s.next_id by {
        assert(r[a].id == s.watches[a].id);
    }
}

impl State {
    /// A state holding these watches, with `next_id` the last id handed out.
    pub fn from_parts(next_id: u64, watches: Vec<Watch>) -> (s: State)
        ensures
            s@.next_id == next_id,
            s@.watches == watches@,
    {
        State { next_id, watches }
    }

    /// The last id handed out.
    pub fn next_id(&self) -> (n: u64)
        ensures
            n == self@.next_id,
    {
        self.next_id
    }

    /// Every watch, in the order they were added.
    pub fn entries(&self) -> (w: &Vec<Watch>)
        ensures
            w@ == self@.watches,
    {
        &self.watches
    }

    /// Opens a watch, unless the user already watches that exact query or
    /// already has `max_per_user` of them.
    pub fn add(&mut self, new: NewWatch, now: i64, max_per_user: usize) -> (r: Result<
        Watch,
        RejectedWatch,
    >)
        requires
            old(self)@.next_id < u64::MAX || rejection(old(self)@, new, max_per_user) is Some,
        ensures
            well_formed(old(self)@) ==> well_formed(final(self)@),
            match rejection(old(self)@, new, max_per_user) {
                Some(why) => r == Err::<Watch, RejectedWatch>(why) && final(self)@ == old(self)@,
                None => {
                    &&& r == Ok::<Watch, RejectedWatch>(created(old(self)@, new, now))
                    &&& final(self)@.next_id == old(self)@.next_id + 1
                    &&& final(self)@.watches == old(self)@.watches.push(
                        created(old(self)@, new, now),
                    )
                },
            },
    {
        let ghost mine = owned_by(new.user_id);
        let mut count: usize = 0;
        let mut i: usize = 0;
        while i < self.watches.len()
            invariant
                i <= self.watches@.len(),
                count == self.watches@.subrange(0, i as int).filter(mine).len(),
                mine == owned_by(new.user_id),
                forall|j: int|
                    0 <= j < i ==> !((#[trigger] self.watches@[j]).user_id == new.user_id
                        && self.watches@[j].query@ == new.query@),
            decreases self.watches@.len() - i,
        {
            proof {
                lemma_filter_prefix(self.watches@, mine, i as int);
                self.watches@.subrange(0, i as int).lemma_filter_len(mine);
            }
            if self.watches[i].user_id == new.user_id {
                if str_eq(self.watches[i].query.as_str(), new.query.as_str()) {
                    return Err(RejectedWatch::AlreadyWatching);
                }
                count = count + 1;
            }
            i = i + 1;
        }
        assert(self.watches@.subrange(0, i as int) =~= self.watches@);
        if count >= max_per_user {
            return Err(RejectedWatch::TooMany);
        }
        self.next_id = self.next_id + 1;
        let watch = Watch {
            id: self.next_id,
            user_id: new.user_id,
            channel_id: new.channel_id,
            guild_id: new.guild_id,
            query: new.query,
            lang: new.lang,
            notified_at: None,
            created_at: now,
            // Not due until a full interval has passed: the search just ran.
            last_checked_at: now,
            checks: 0,
        };
        let copy = watch.duplicate();
        self.watches.push(watch);
        proof {
            if well_formed(old(self)@) {
                let w = self@.watches;
                assert forall|a: int, b: int| 0 <= a < b < w.len() implies #[trigger] w[a].id
                    < #[trigger] w[b].id by {
                    if b == w.len() - 1 {
                        assert(w[a] == old(self)@.watches[a]);
                    } else {
                        assert(w[a] == old(self)@.watches[a]);
                        assert(w[b] == old(self)@.watches[b]);
                    }
                }
                assert forall|a: int| 0 <= a < w.len() implies #[trigger] w[a].id <= self@.next_id by {
                    if a < w.len() - 1 {
                        assert(w[a] == old(self)@.watches[a]);
                    }
                }
            }
        }
        Ok(copy)
    }

    /// Removes a watch, but only from the user who created it.
    pub fn remove(&mut self, id: u64, user_id: u64) -> (r: Option<Watch>)
        ensures
            well_formed(old(self)@) ==> well_formed(final(self)@),
            removed_where(old(self)@, final(self)@, owned_with_id(id, user_id), r),
    {
        let ghost p = owned_with_id(id, user_id);
        let mut i: usize = 0;
        while i < self.watches.len()
            invariant
                i <= self.watches@.len(),
                p == owned_with_id(id, user_id),
                self.watches@ == old(self).watches@,
                self.next_id == old(self).next_id,
                forall|j: int| 0 <= j < i ==> !p(#[trigger] self.watches@[j]),
            decreases self.watches@.len() - i,
        {
            if self.watches[i].id == id && self.watches[i].user_id == user_id {
                proof {
                    crate::seqs::lemma_first_where_is(self.watches@, p, i as int);
                    if well_formed(old(self)@) {
                        lemma_remove_well_formed(old(self)@, i as int);
                    }
                }
                return Some(self.watches.remove(i));
            }
            i = i + 1;
        }
        proof {
            crate::seqs::lemma_first_where_none(self.watches@, p);
        }
        None
    }

    /// Removes without checking ownership. Callers must have established that
    /// the requester moderates the server the watch belongs to.
    pub fn remove_within_guild(&mut self, id: u64, guild_id: u64) -> (r: Option<Watch>)
        ensures
            well_formed(old(self)@) ==> well_formed(final(self)@),
            removed_where(old(self)@, final(self)@, guild_with_id(id, guild_id), r),
    {
        let ghost p = guild_with_id(id, guild_id);
        let mut i: usize = 0;
        while i < self.watches.len()
            invariant
                i <= self.watches@.len(),
                p == guild_with_id(id, guild_id),
                self.watches@ == old(self).watches@,
                self.next_id == old(self).next_id,
                forall|j: int| 0 <= j < i ==> !p(#[trigger] self.watches@[j]),
            decreases self.watches@.len() - i,
        {
            if self.watches[i].id == id && self.watches[i].guild_id == Some(guild_id) {
                proof {
                    crate::seqs::lemma_first_where_is(self.watches@, p, i as int);
                    if well_formed(old(self)@) {
                        lemma_remove_well_formed(old(self)@, i as int);
                    }
                }
                return Some(self.watches.remove(i));
            }
            i = i + 1;
        }
        proof {
            crate::seqs::lemma_first_where_none(self.watches@, p);
        }
        None
    }

    pub fn for_user(&self, user_id: u64) -> (r: Vec<&Watch>)
        ensures
            r@.len() == self@.watches.filter(owned_by(user_id)).len(),
            forall|i: int|
                0 <= i < r@.len() ==> *r@[i] == #[trigger] self@.watches.filter(owned_by(user_id))[i],
    {
        let ghost p = owned_by(user_id);
        let mut r: Vec<&Watch> = Vec::new();
        let mut i: usize = 0;
        while i < self.watches.len()
            invariant
                i <= self.watches@.len(),
                p == owned_by(user_id),
                r@.len() == self.watches@.subrange(0, i as int).filter(p).len(),
                forall|k: int|
                    0 <= k < r@.len() ==> *r@[k] == #[trigger] self.watches@.subrange(
                        0,
                        i as int,
                    ).filter(p)[k],
            decreases self.watches@.len() - i,
        {
            proof {
                lemma_filter_prefix(self.watches@, p, i as int);
            }
            if self.watches[i].user_id == user_id {
                r.push(&self.watches[i]);
            }
            i = i + 1;
        }
        assert(self.watches@.subrange(0, i as int) =~= self.watches@);
        r
    }

    /// Everything running in one server, for the moderator view.
    pub fn for_guild(&self, guild_id: u64) -> (r: Vec<&Watch>)
        ensures
            r@.len() == self@.watches.filter(in_guild(guild_id)).len(),
            forall|i: int|
                0 <= i < r@.len() ==> *r@[i] == #[trigger] self@.watches.filter(in_guild(guild_id))[i],
    {
        let ghost p = in_guild(guild_id);
        let mut r: Vec<&Watch> = Vec::new();
        let mut i: usize = 0;
        while i < self.watches.len()
            invariant
                i <= self.watches@.len(),
                p == in_guild(guild_id),
                r@.len() == self.watches@.subrange(0, i as int).filter(p).len(),
                forall|k: int|
                    0 <= k < r@.len() ==> *r@[k] == #[trigger] self.watches@.subrange(
                        0,
                        i as int,
                    ).filter(p)[k],
            decreases self.watches@.len() - i,
        {
            proof {
                lemma_filter_prefix(self.watches@, p, i as int);
            }
            if self.watches[i].guild_id == Some(guild_id) {
                r.push(&self.watches[i]);
            }
            i = i + 1;
        }
        assert(self.watches@.subrange(0, i as int) =~= self.watches@);
        r
    }

    pub fn due(&self, now: i64, interval: i64) -> (r: Vec<Watch>)
        requires
            forall|i: int| 0 <= i < self@.watches.len() ==> due_computable(#[trigger] self@.watches[i], now),
        ensures
            r@ == self@.watches.filter(is_due_at(now, interval)),
    {
        let ghost p = is_due_at(now, interval);
        let mut r: Vec<Watch> = Vec::new();
        let mut i: usize = 0;
        while i < self.watches.len()
            invariant
                i <= self.watches@.len(),
                p == is_due_at(now, interval),
                forall|k: int| 0 <= k < self@.watches.len() ==> due_computable(#[trigger] self@.watches[k], now),
                r@ == self.watches@.subrange(0, i as int).filter(p),
            decreases self.watches@.len() - i,
        {
            proof {
                lemma_filter_prefix(self.watches@, p, i as int);
            }
            assert(due_computable(self@.watches[i as int], now));
            if self.watches[i].is_due(now, interval) {
                r.push(self.watches[i].duplicate());
            }
            i = i + 1;
        }
        assert(self.watches@.subrange(0, i as int) =~= self.watches@);
        r
    }

    /// Records that the user has been told, which stops the searching.
    pub fn mark_notified(&mut self, id: u64, now: i64)
        ensures
            well_formed(old(self)@) ==> well_formed(final(self)@),
            final(self)@.next_id == old(self)@.next_id,
            final(self)@.watches == match first_where(old(self)@.watches, with_id(id)) {
                Some(i) => old(self)@.watches.update(i, notified(old(self)@.watches[i], now)),
                None => old(self)@.watches,
            },
    {
        match self.position_of(id) {
            Some(i) => {
                let mut w = self.watches[i].duplicate();
                w.notified_at = Some(now);
                assert(w == notified(old(self)@.watches[i as int], now));
                proof {
                    if well_formed(old(self)@) {
                        lemma_update_well_formed(old(self)@, i as int, w);
                    }
                }
                self.watches.set(i, w);
            },
            None => {},
        }
    }

    /// Where the first watch with this id stands.
    fn position_of(&self, id: u64) -> (r: Option<usize>)
        ensures
            r matches Some(k) ==> k < self@.watches.len() && self@.watches[k as int].id == id,
            match first_where(self@.watches, with_id(id)) {
                Some(i) => 0 <= i < self@.watches.len() && (r matches Some(k) && k as int == i),
                None => r is None,
            },
    {
        let ghost p = with_id(id);
        proof {
            lemma_first_where_found(self@.watches, p);
        }
        let mut i: usize = 0;
        while i < self.watches.len()
            invariant
                i <= self.watches@.len(),
                p == with_id(id),
                forall|j: int| 0 <= j < i ==> !p(#[trigger] self.watches@[j]),
            decreases self.watches@.len() - i,
        {
            if self.watches[i].id == id {
                proof {
                    crate::seqs::lemma_first_where_is(self.watches@, p, i as int);
                }
                return Some(i);
            }
            i = i + 1;
        }
        proof {
            crate::seqs::lemma_first_where_none(self.watches@, p);
        }
        None
    }

    /// Drops the watches this user was keeping for that exact search, which is
    /// what a successful download means.
    pub fn fulfil(&mut self, user_id: u64, query: &str) -> (r: Vec<Watch>)
        ensures
            well_formed(old(self)@) ==> well_formed(final(self)@),
            final(self)@.next_id == old(self)@.next_id,
            r@ == old(self)@.watches.filter(fulfils(user_id, query@)),
            final(self)@.watches == old(self)@.watches.filter(keeps(user_id, query@)),
    {
        let ghost p = fulfils(user_id, query@);
        let ghost q = keeps(user_id, query@);
        let query_chars = chars_of(query);
        let wanted = trim_chars(query_chars.as_slice());
        let mut fulfilled: Vec<Watch> = Vec::new();
        let mut kept: Vec<Watch> = Vec::new();
        let mut i: usize = 0;
        while i < self.watches.len()
            invariant
                i <= self.watches@.len(),
                p == fulfils(user_id, query@),
                q == keeps(user_id, query@),
                wanted@ == trim(query@),
                fulfilled@ == self.watches@.subrange(0, i as int).filter(p),
                kept@ == self.watches@.subrange(0, i as int).filter(q),
            decreases self.watches@.len() - i,
        {
            proof {
                lemma_filter_prefix(self.watches@, p, i as int);
                lemma_filter_prefix(self.watches@, q, i as int);
            }
            let w = &self.watches[i];
            let matches = w.user_id == user_id && {
                let own = chars_of(w.query.as_str());
                let trimmed = trim_chars(own.as_slice());
                chars_eq_ignore_ascii_case(trimmed.as_slice(), wanted.as_slice())
            };
            if matches {
                fulfilled.push(w.duplicate());
            } else {
                kept.push(w.duplicate());
            }
            i = i + 1;
        }
        assert(self.watches@.subrange(0, i as int) =~= self.watches@);
        proof {
            if well_formed(old(self)@) {
                lemma_filter_well_formed(old(self)@, q);
            }
        }
        self.watches = kept;
        fulfilled
    }

    /// Seconds until the earliest watch is checked again, ignoring the ones
    /// already found and waiting on their owner. `None` when nothing is
    /// searching. Exists so the logs can say why nothing is happening yet.
    pub fn seconds_until_next_due(&self, now: i64, interval: i64) -> (r: Option<i64>)
        requires
            forall|i: int| 0 <= i < self@.watches.len() ==> wait_computable(#[trigger] self@.watches[i], now, interval),
        ensures
            match next_due(self@.watches, now, interval) {
                Some(v) => r == Some(v as i64),
                None => r is None,
            },
    {
        let mut best: Option<i64> = None;
        let mut i: usize = 0;
        while i < self.watches.len()
            invariant
                i <= self.watches@.len(),
                forall|k: int| 0 <= k < self.watches@.len() ==> wait_computable(#[trigger] self.watches@[k], now, interval),
                match next_due(self.watches@.subrange(0, i as int), now, interval) {
                    Some(v) => 0 <= v <= i64::MAX && best == Some(v as i64),
                    None => best is None,
                },
            decreases self.watches@.len() - i,
        {
            assert(self.watches@.subrange(0, i + 1).drop_last() =~= self.watches@.subrange(0, i as int));
            let w = &self.watches[i];
            if w.notified_at.is_none() {
                let wait = w.last_checked_at + interval - now;
                let wait = if wait < 0 { 0 } else { wait };
                best = match best {
                    None => Some(wait),
                    Some(b) => Some(if wait < b { wait } else { b }),
                };
            }
            i = i + 1;
        }
        assert(self.watches@.subrange(0, i as int) =~= self.watches@);
        best
    }

    pub fn mark_checked(&mut self, id: u64, now: i64)
        requires
            match first_where(old(self)@.watches, with_id(id)) {
                Some(i) => old(self)@.watches[i].checks < u32::MAX,
                None => true,
            },
        ensures
            well_formed(old(self)@) ==> well_formed(final(self)@),
            final(self)@.next_id == old(self)@.next_id,
            final(self)@.watches == match first_where(old(self)@.watches, with_id(id)) {
                Some(i) => old(self)@.watches.update(i, checked(old(self)@.watches[i], now)),
                None => old(self)@.watches,
            },
    {
        let pos = self.position_of(id);
        match pos {
            Some(i) => {
                let mut w = self.watches[i].duplicate();
                assert(first_where(old(self)@.watches, with_id(id)) == Some(i as int));
                w.last_checked_at = now;
                w.checks = w.checks + 1;
                assert(w == checked(old(self)@.watches[i as int], now));
                proof {
                    if well_formed(old(self)@) {
                        lemma_update_well_formed(old(self)@, i as int, w);
                    }
                }
                self.watches.set(i, w);
            },
            None => {},
        }
    }

    /// Drops watches that have been running for too long, returning them so the
    /// caller can tell their owners why they stopped.
    pub fn prune_expired(&mut self, now: i64, max_age: i64) -> (r: Vec<Watch>)
        requires
            forall|i: int|
                0 <= i < old(self)@.watches.len() ==> i64::MIN <= now - (#[trigger] old(self)@.watches[i]).created_at <= i64::MAX,
        ensures
            well_formed(old(self)@) ==> well_formed(final(self)@),
            final(self)@.next_id == old(self)@.next_id,
            r@ == old(self)@.watches.filter(is_expired_at(now, max_age)),
            final(self)@.watches == old(self)@.watches.filter(is_young_at(now, max_age)),
    {
        let ghost p = is_expired_at(now, max_age);
        let ghost q = is_young_at(now, max_age);
        let mut expired: Vec<Watch> = Vec::new();
        let mut kept: Vec<Watch> = Vec::new();
        let mut i: usize = 0;
        while i < self.watches.len()
            invariant
                i <= self.watches@.len(),
                p == is_expired_at(now, max_age),
                q == is_young_at(now, max_age),
                self.watches@ == old(self)@.watches,
                forall|k: int|
                    0 <= k < old(self)@.watches.len() ==> i64::MIN <= now - (#[trigger] old(
                        self,
                    )@.watches[k]).created_at <= i64::MAX,
                expired@ == self.watches@.subrange(0, i as int).filter(p),
                kept@ == self.watches@.subrange(0, i as int).filter(q),
            decreases self.watches@.len() - i,
        {
            proof {
                lemma_filter_prefix(self.watches@, p, i as int);
                lemma_filter_prefix(self.watches@, q, i as int);
            }
            if self.watches[i].is_expired(now, max_age) {
                expired.push(self.watches[i].duplicate());
            } else {
                kept.push(self.watches[i].duplicate());
            }
            i = i + 1;
        }
        assert(self.watches@.subrange(0, i as int) =~= self.watches@);
        proof {
            if well_formed(old(self)@) {
                lemma_filter_well_formed(old(self)@, q);
            }
        }
        self.watches = kept;
        expired
    }

    pub fn len(&self) -> (n: usize)
        ensures
            n == self@.watches.len(),
    {
        self.watches.len()
    }

    pub fn is_empty(&self) -> (b: bool)
        ensures
            b == (self@.watches.len() == 0),
    {
        self.watches.len() == 0
    }
}


/// A new watch's id is larger than every id in a well-formed list, and ids
/// never go back down, so an id is never handed out twice.
pub proof fn new_ids_are_fresh(s: StateView, new: NewWatch, now: i64)
    requires
        well_formed(s),
        s.next_id < u64::MAX,
    ensures
        forall|i: int| 0 <= i < s.watches.len() ==> (#[trigger] s.watches[i]).id < created(s, new, now).id,
{
}

/// Once added, a watch is found again by its owner, and removing it gives
/// back exactly the list it was added to; nobody else can remove it.
pub proof fn an_added_watch_is_removed_only_by_its_owner(
    s: StateView,
    new: NewWatch,
    now: i64,
    other: u64,
)
    requires
        well_formed(s),
        s.next_id < u64::MAX,
        other != new.user_id,
    ensures
        ({
            let w = created(s, new, now);
            let after = s.watches.push(w);
            &&& first_where(after, owned_with_id(w.id, new.user_id)) == Some(s.watches.len() as int)
            &&& after.remove(s.watches.len() as int) == s.watches
            &&& first_where(after, owned_with_id(w.id, other)) is None
        }),
{
    let w = created(s, new, now);
    let after = s.watches.push(w);
    assert forall|j: int| 0 <= j < s.watches.len() implies !owned_with_id(w.id, new.user_id)(
        #[trigger] after[j],
    ) by {
        assert(after[j] == s.watches[j]);
    }
    crate::seqs::lemma_first_where_is(after, owned_with_id(w.id, new.user_id), s.watches.len() as int);
    assert(after.remove(s.watches.len() as int) =~= s.watches);
    assert forall|j: int| 0 <= j < after.len() implies !owned_with_id(w.id, other)(#[trigger] after[j]) by {
        if j < s.watches.len() {
            assert(after[j] == s.watches[j]);
        }
    }
    crate::seqs::lemma_first_where_none(after, owned_with_id(w.id, other));
}

/// A watch whose book was found is never searched again.
pub proof fn a_found_watch_is_never_due(w: Watch, found_at: i64, now: i64, interval: i64)
    ensures
        !due_at(notified(w, found_at), now, interval),
{
}

/// A new watch becomes due exactly one full interval after it was created:
/// the search that created it just ran.
pub proof fn a_new_watch_waits_one_interval(
    s: StateView,
    new: NewWatch,
    now: i64,
    later: i64,
    interval: i64,
)
    ensures
        due_at(created(s, new, now), later, interval) <==> later - now >= interval,
{
}

/// Expiry is counted from creation, whatever the checks in between.
pub proof fn expiry_ignores_checks(w: Watch, checked_at: i64, now: i64, max_age: i64)
    ensures
        expired_at(checked(w, checked_at), now, max_age) == expired_at(w, now, max_age),
{
}

/// A download splits the list in two: every watch is either fulfilled or kept.
pub proof fn fulfilling_partitions_the_list(watches: Seq<Watch>, user_id: u64, query: Seq<char>)
    ensures
        watches.filter(fulfils(user_id, query)).len() + watches.filter(keeps(user_id, query)).len()
            == watches.len(),
    decreases watches.len(),
{
    reveal(Seq::filter);
    if watches.len() > 0 {
        fulfilling_partitions_the_list(watches.drop_last(), user_id, query);
    }
}

/// Pruning splits the list in two: every watch is either expired or kept.
pub proof fn pruning_partitions_the_list(watches: Seq<Watch>, now: i64, max_age: i64)
    ensures
        watches.filter(is_expired_at(now, max_age)).len() + watches.filter(
            is_young_at(now, max_age),
        ).len() == watches.len(),
    decreases watches.len(),
{
    reveal(Seq::filter);
    if watches.len() > 0 {
        pruning_partitions_the_list(watches.drop_last(), now, max_age);
    }
}

/// The next check is never in the past, and there is none exactly when no
/// watch is still searching.
pub proof fn the_next_check_is_known_while_something_searches(
    watches: Seq<Watch>,
    now: i64,
    interval: i64,
)
    ensures
        next_due(watches, now, interval) is None <==> forall|i: int|
            0 <= i < watches.len() ==> (#[trigger] watches[i]).notified_at is Some,
        next_due(watches, now, interval) matches Some(v) ==> v >= 0,
    decreases watches.len(),
{
    if watches.len() > 0 {
        let before = watches.drop_last();
        the_next_check_is_known_while_something_searches(before, now, interval);
        if next_due(watches, now, interval) is None {
            assert forall|i: int| 0 <= i < watches.len() implies (#[trigger] watches[i]).notified_at is Some by {
                if i < watches.len() - 1 {
                    assert(watches[i] == before[i]);
                }
            }
        }
        if forall|i: int| 0 <= i < watches.len() ==> (#[trigger] watches[i]).notified_at is Some {
            assert forall|i: int| 0 <= i < before.len() implies (#[trigger] before[i]).notified_at is Some by {
                assert(watches[i] == before[i]);
            }
            assert(watches[watches.len() - 1].notified_at is Some);
        }
    }
}

/// How long a watch still searching waits before it is due, never below zero.
pub open spec fn wait_of(w: Watch, now: i64, interval: i64) -> int {
    let raw = w.last_checked_at + interval - now;
    if raw < 0 { 0 } else { raw }
}

/// The next check is the earliest of the waits of the watches still
/// searching: no such watch waits less, and one waits exactly that long.
pub proof fn the_next_check_is_the_earliest_wait(watches: Seq<Watch>, now: i64, interval: i64)
    ensures
        next_due(watches, now, interval) matches Some(v) ==> {
            &&& forall|i: int|
                0 <= i < watches.len() && (#[trigger] watches[i]).notified_at is None ==> v <= wait_of(
                    watches[i],
                    now,
                    interval,
                )
            &&& exists|i: int|
                0 <= i < watches.len() && (#[trigger] watches[i]).notified_at is None && v == wait_of(
                    watches[i],
                    now,
                    interval,
                )
        },
    decreases watches.len(),
{
    if watches.len() > 0 {
        let before = watches.drop_last();
        let last = watches.len() - 1;
        the_next_check_is_the_earliest_wait(before, now, interval);
        assert forall|i: int| 0 <= i < before.len() implies before[i] == watches[i] by {}
        if let Some(v) = next_due(watches, now, interval) {
            if watches[last].notified_at is None {
                match next_due(before, now, interval) {
                    None => {
                        the_next_check_is_known_while_something_searches(before, now, interval);
                        assert forall|i: int|
                            0 <= i < watches.len() && (#[trigger] watches[i]).notified_at is None
                            implies v <= wait_of(watches[i], now, interval) by {
                            if i < last {
                                assert(before[i].notified_at is Some);
                            }
                        }
                        assert(v == wait_of(watches[last], now, interval));
                    },
                    Some(b) => {
                        if v == b {
                            let j = choose|j: int|
                                0 <= j < before.len() && (#[trigger] before[j]).notified_at is None
                                    && b == wait_of(before[j], now, interval);
                            assert(watches[j] == before[j]);
                        } else {
                            assert(v == wait_of(watches[last], now, interval));
                        }
                        assert forall|i: int|
                            0 <= i < watches.len() && (#[trigger] watches[i]).notified_at is None
                            implies v <= wait_of(watches[i], now, interval) by {
                            if i < last {
                                assert(before[i] == watches[i]);
                            }
                        }
                    },
                }
            } else {
                let j = choose|j: int|
                    0 <= j < before.len() && (#[trigger] before[j]).notified_at is None && v
                        == wait_of(before[j], now, interval);
                assert(watches[j] == before[j]);
                assert forall|i: int|
                    0 <= i < watches.len() && (#[trigger] watches[i]).notified_at is None
                    implies v <= wait_of(watches[i], now, interval) by {
                    assert(i < last);
                    assert(before[i] == watches[i]);
                }
            }
        }
    }
}

/// An id is never handed out twice, removals notwithstanding: every operation
/// keeps or raises the last id handed out, so a watch added later than another
/// always gets a larger id.
pub proof fn a_later_watch_gets_a_larger_id(
    before: StateView,
    first: NewWatch,
    first_at: i64,
    after: StateView,
    later: StateView,
    second: NewWatch,
    second_at: i64,
)
    requires
        after.next_id == before.next_id + 1,
        later.next_id >= after.next_id,
        later.next_id < u64::MAX,
    ensures
        created(later, second, second_at).id > created(before, first, first_at).id,
{
}

/// A removal shortens the list by one exactly when it hands a watch back, and
/// leaves the list as it was otherwise.
pub proof fn a_removal_shortens_the_list_by_what_it_returns(
    before: StateView,
    after: StateView,
    p: spec_fn(Watch) -> bool,
    r: Option<Watch>,
)
    requires
        removed_where(before, after, p, r),
    ensures
        after.watches.len() == before.watches.len() - (if r is Some {
            1int
        } else {
            0int
        }),
        r is None ==> after == before,
{
    lemma_first_where_found(before.watches, p);
}

/// A user watches a query exactly when some watch of theirs has that query.
proof fn lemma_watching_is_read_from_own_watches(s: Seq<Watch>, user_id: u64, query: Seq<char>)
    ensures
        (exists|i: int|
            0 <= i < s.len() && (#[trigger] s[i]).user_id == user_id && s[i].query@ == query) <==> (
        exists|j: int|
            0 <= j < s.filter(owned_by(user_id)).len() && (#[trigger] s.filter(
                owned_by(user_id),
            )[j]).query@ == query),
{
    broadcast use vstd::seq_lib::group_filter_ensures;

    let f = s.filter(owned_by(user_id));
    if exists|i: int| 0 <= i < s.len() && (#[trigger] s[i]).user_id == user_id && s[i].query@ == query {
        let i = choose|i: int|
            0 <= i < s.len() && (#[trigger] s[i]).user_id == user_id && s[i].query@ == query;
        assert(owned_by(user_id)(s[i]));
        assert(f.contains(s[i]));
        let j = choose|j: int| 0 <= j < f.len() && f[j] == s[i];
        assert(f[j].query@ == query);
    }
    if exists|j: int| 0 <= j < f.len() && (#[trigger] f[j]).query@ == query {
        let j = choose|j: int| 0 <= j < f.len() && (#[trigger] f[j]).query@ == query;
        assert(owned_by(user_id)(f[j]));
        s.lemma_filter_contains_rev(owned_by(user_id), f[j]);
        let i = choose|i: int| 0 <= i < s.len() && s[i] == f[j];
        assert(s[i].user_id == user_id && s[i].query@ == query);
    }
}

/// Only a user's own watches decide whether a new one of theirs is refused:
/// lists that hold the same watches of that user refuse it alike, whatever
/// the other users watch.
pub proof fn only_a_users_own_watches_decide_a_refusal(
    a: StateView,
    b: StateView,
    new: NewWatch,
    max_per_user: usize,
)
    requires
        a.watches.filter(owned_by(new.user_id)) == b.watches.filter(owned_by(new.user_id)),
    ensures
        rejection(a, new, max_per_user) == rejection(b, new, max_per_user),
{
    lemma_watching_is_read_from_own_watches(a.watches, new.user_id, new.query@);
    lemma_watching_is_read_from_own_watches(b.watches, new.user_id, new.query@);
}

/// How each change moves the length of the list, as the changes' contracts
/// describe their outcome: an accepted addition adds one watch; a download
/// drops exactly the watches it closes and pruning exactly the expired ones;
/// marking a watch checked or found changes none. (A removal is
/// [`a_removal_shortens_the_list_by_what_it_returns`].)
pub proof fn each_change_moves_the_length_by_what_it_reports(
    s: StateView,
    new: NewWatch,
    now: i64,
    user_id: u64,
    query: Seq<char>,
    max_age: i64,
    id: u64,
)
    ensures
        s.watches.push(created(s, new, now)).len() == s.watches.len() + 1,
        s.watches.filter(keeps(user_id, query)).len() == s.watches.len() - s.watches.filter(
            fulfils(user_id, query),
        ).len(),
        s.watches.filter(is_young_at(now, max_age)).len() == s.watches.len() - s.watches.filter(
            is_expired_at(now, max_age),
        ).len(),
        match first_where(s.watches, with_id(id)) {
            Some(i) => {
                &&& s.watches.update(i, checked(s.watches[i], now)).len() == s.watches.len()
                &&& s.watches.update(i, notified(s.watches[i], now)).len() == s.watches.len()
            },
            None => true,
        },
{
    fulfilling_partitions_the_list(s.watches, user_id, query);
    pruning_partitions_the_list(s.watches, now, max_age);
    lemma_first_where_found(s.watches, with_id(id));
}

/// A download closes a watch exactly when the watch belongs to that user and
/// its trimmed words are the download's trimmed words, letter for letter up to
/// ASCII case; every other watch is kept. Words that merely contain, or are
/// contained in, the download's words do not count.
pub proof fn a_download_closes_exactly_the_watches_for_its_words(
    w: Watch,
    user_id: u64,
    query: Seq<char>,
)
    ensures
        fulfils(user_id, query)(w) <==> {
            &&& w.user_id == user_id
            &&& trim(w.query@).len() == trim(query).len()
            &&& forall|i: int|
                0 <= i < trim(query).len() ==> ascii_lower(#[trigger] trim(w.query@)[i]) == ascii_lower(
                    trim(query)[i],
                )
        },
        keeps(user_id, query)(w) <==> !fulfils(user_id, query)(w),
{
    let a = trim(w.query@);
    let b = trim(query);
    if a.len() == b.len() && forall|i: int| 0 <= i < b.len() ==> ascii_lower(#[trigger] a[i]) == ascii_lower(b[i]) {
        assert(ascii_lowercase(a) =~= ascii_lowercase(b));
    }
    assert(ascii_lowercase(a).len() == a.len());
    assert(ascii_lowercase(b).len() == b.len());
    if ascii_lowercase(a) == ascii_lowercase(b) {
        assert(a.len() == b.len());
        assert forall|i: int| 0 <= i < b.len() implies ascii_lower(#[trigger] a[i]) == ascii_lower(b[i]) by {
            assert(ascii_lowercase(a)[i] == ascii_lower(a[i]));
            assert(ascii_lowercase(b)[i] == ascii_lower(b[i]));
        }
    }
}

} // verus!

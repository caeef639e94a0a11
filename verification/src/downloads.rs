//! Torrents sent to qBittorrent, tracked until they finish seeding.
//!
//! qBittorrent's add endpoint never returns a hash, so each download is
//! tagged with its own id instead ([`Download::tag`]); that tag is the only
//! way the background sweep can find it again later.

use crate::i18n::Lang;
use crate::seqs::{first_where, lemma_filter_prefix, lemma_first_where_found};
use crate::text::{decimal, push_decimal};
use vstd::prelude::*;
use vstd::string::*;

verus! {

/// A download being tracked.
#[derive(Debug, Clone, PartialEq, Eq)]
pub struct Download {
    pub id: u64,
    pub user_id: u64,
    pub channel_id: u64,
    pub guild_id: Option<u64>,
    /// Kept so a stuck entry can be searched again.
    pub query: String,
    /// The release actually picked, for display.
    pub title: String,
    /// "biblio-<id>", sent to qBittorrent as the torrent's tag.
    pub tag: String,
    pub added_at: i64,
    pub last_checked_at: i64,
    pub lang: Lang,
    /// Set by `/stuck`. Purely informational: the sweep keeps checking for
    /// completion regardless, in case it finishes anyway.
    pub stuck_marked_at: Option<i64>,
    /// Last time this entry was included in the daily stuck digest.
    pub last_digest_at: Option<i64>,
}

impl Download {
    /// A field-for-field copy.
    pub fn duplicate(&self) -> (d: Download)
        ensures
            d == *self,
    {
        Download {
            id: self.id,
            user_id: self.user_id,
            channel_id: self.channel_id,
            guild_id: self.guild_id,
            query: self.query.clone(),
            title: self.title.clone(),
            tag: self.tag.clone(),
            added_at: self.added_at,
            last_checked_at: self.last_checked_at,
            lang: self.lang,
            stuck_marked_at: self.stuck_marked_at,
            last_digest_at: self.last_digest_at,
        }
    }
}

/// What a caller supplies to start tracking a download; the rest is bookkeeping.
#[derive(Debug, Clone, PartialEq, Eq)]
pub struct NewDownload {
    pub user_id: u64,
    pub channel_id: u64,
    pub guild_id: Option<u64>,
    pub query: String,
    pub title: String,
    pub lang: Lang,
}

/// The tag a download with this id carries in qBittorrent.
pub open spec fn tag_for(id: nat) -> Seq<char> {
    "biblio-"@ + decimal(id)
}

/// The tag a download with this id carries in qBittorrent.
pub fn tag_of(id: u64) -> (t: String)
    ensures
        t@ == tag_for(id as nat),
{
    let mut t = String::from_str("biblio-");
    push_decimal(&mut t, id);
    t
}

/// The whole file, and every decision taken on it.
#[derive(Debug, Default, PartialEq, Eq)]
pub struct State {
    next_id: u64,
    downloads: Vec<Download>,
}

/// What a [`State`] holds: the last id handed out and the downloads in the
/// order they were added.
pub struct StateView {
    pub next_id: nat,
    pub downloads: Seq<Download>,
}

impl View for State {
    type V = StateView;

    closed spec fn view(&self) -> StateView {
        StateView { next_id: self.next_id as nat, downloads: self.downloads@ }
    }
}

/// Ids increase along the list, none exceeds the last one handed out, and
/// each download's tag is derived from its id.
pub open spec fn well_formed(s: StateView) -> bool {
    &&& forall|i: int, j: int|
        0 <= i < j < s.downloads.len() ==> #[trigger] s.downloads[i].id < #[trigger] s.downloads[j].id
    &&& forall|i: int| 0 <= i < s.downloads.len() ==> #[trigger] s.downloads[i].id <= s.next_id
    &&& forall|i: int|
        0 <= i < s.downloads.len() ==> (#[trigger] s.downloads[i]).tag@ == tag_for(
            s.downloads[i].id as nat,
        )
}

/// The download with an id.
pub open spec fn with_id(id: u64) -> spec_fn(Download) -> bool {
    |d: Download| d.id == id
}

/// The download with an id, if `user_id` tracks it.
pub open spec fn owned_with_id(id: u64, user_id: u64) -> spec_fn(Download) -> bool {
    |d: Download| d.id == id && d.user_id == user_id
}

/// Downloads tracked for one user.
pub open spec fn owned_by(user_id: u64) -> spec_fn(Download) -> bool {
    |d: Download| d.user_id == user_id
}

/// Stuck downloads not mentioned in a digest for `interval` seconds.
pub open spec fn digest_due(d: Download, now: i64, interval: i64) -> bool {
    d.stuck_marked_at is Some && match d.last_digest_at {
        None => true,
        Some(last) => now - last >= interval,
    }
}

/// Downloads due for the stuck digest at `now`.
pub open spec fn is_digest_due(now: i64, interval: i64) -> spec_fn(Download) -> bool {
    |d: Download| digest_due(d, now, interval)
}

/// The elapsed time since the last digest is computed only for a stuck
/// download already digested, and must then fit in an `i64`.
pub open spec fn digest_computable(d: Download, now: i64) -> bool {
    d.stuck_marked_at is Some ==> match d.last_digest_at {
        None => true,
        Some(last) => i64::MIN <= now - last <= i64::MAX,
    }
}

/// Whether `d` is the download `add` creates for `new` at `now`.
pub open spec fn is_created(d: Download, s: StateView, new: NewDownload, now: i64) -> bool {
    &&& d.id == s.next_id + 1
    &&& d.user_id == new.user_id
    &&& d.channel_id == new.channel_id
    &&& d.guild_id == new.guild_id
    &&& d.query == new.query
    &&& d.title == new.title
    &&& d.tag@ == tag_for(d.id as nat)
    &&& d.added_at == now
    &&& d.last_checked_at == now
    &&& d.lang == new.lang
    &&& d.stuck_marked_at is None
    &&& d.last_digest_at is None
}

/// The outcome of removing the first download that `p` selects.
pub open spec fn removed_where(
    old: StateView,
    new: StateView,
    p: spec_fn(Download) -> bool,
    r: Option<Download>,
) -> bool {
    &&& new.next_id == old.next_id
    &&& match first_where(old.downloads, p) {
        Some(i) => r == Some(old.downloads[i]) && new.downloads == old.downloads.remove(i),
        None => r is None && new.downloads == old.downloads,
    }
}

/// A download flagged as stuck at `now`.
pub open spec fn stuck(d: Download, now: i64) -> Download {
    Download { stuck_marked_at: Some(now), ..d }
}

/// A download checked at `now`.
pub open spec fn checked(d: Download, now: i64) -> Download {
    Download { last_checked_at: now, ..d }
}

/// A download mentioned in the digest at `now`.
pub open spec fn digested(d: Download, now: i64) -> Download {
    Download { last_digest_at: Some(now), ..d }
}

/// The list with the first download that `p` selects replaced by `f` of it.
pub open spec fn updated_where(
    s: Seq<Download>,
    p: spec_fn(Download) -> bool,
    f: spec_fn(Download) -> Download,
) -> Seq<Download> {
    match first_where(s, p) {
        Some(i) => s.update(i, f(s[i])),
        None => s,
    }
}

proof fn lemma_remove_well_formed(s: StateView, i: int)
    requires
        well_formed(s),
        0 <= i < s.downloads.len(),
    ensures
        well_formed(StateView { next_id: s.next_id, downloads: s.downloads.remove(i) }),
{
    let r = s.downloads.remove(i);
    assert forall|a: int, b: int| 0 <= a < b < r.len() implies #[trigger] r[a].id < #[trigger] r[b].id by {
        let a2 = if a < i { a } else { a + 1 };
        let b2 = if b < i { b } else { b + 1 };
        assert(r[a] == s.downloads[a2]);
        assert(r[b] == s.downloads[b2]);
    }
    assert forall|a: int| 0 <= a < r.len() implies #[trigger] r[a].id <= s.next_id && r[a].tag@
        == tag_for(r[a].id as nat) by {
        let a2 = if a < i { a } else { a + 1 };
        assert(r[a] == s.downloads[a2]);
    }
}

proof fn lemma_update_well_formed(s: StateView, i: int, d: Download)
    requires
        well_formed(s),
        0 <= i < s.downloads.len(),
        d.id == s.downloads[i].id,
        d.tag == s.downloads[i].tag,
    ensures
        well_formed(StateView { next_id: s.next_id, downloads: s.downloads.update(i, d) }),
{
    let r = s.downloads.update(i, d);
    assert forall|a: int, b: int| 0 <= a < b < r.len() implies #[trigger] r[a].id < #[trigger] r[b].id by {
        assert(r[a].id == s.downloads[a].id);
        assert(r[b].id == s.downloads[b].id);
    }
    assert forall|a: int| 0 <= a < r.len() implies #[trigger] r[a].id <= s.next_id && r[a].tag@
        == tag_for(r[a].id as nat) by {
        assert(r[a].id == s.downloads[a].id);
        assert(r[a].tag == s.downloads[a].tag);
    }
}

impl State {
    /// A state holding these downloads, with `next_id` the last id handed out.
    pub fn from_parts(next_id: u64, downloads: Vec<Download>) -> (s: State)
        ensures
            s@.next_id == next_id,
            s@.downloads == downloads@,
    {
        State { next_id, downloads }
    }

    /// The last id handed out.
    pub fn next_id(&self) -> (n: u64)
        ensures
            n == self@.next_id,
    {
        self.next_id
    }

    /// Starts tracking a download under a fresh id and the tag derived from it.
    pub fn add(&mut self, new: NewDownload, now: i64) -> (d: Download)
        requires
            old(self)@.next_id < u64::MAX,
        ensures
            is_created(d, old(self)@, new, now),
            final(self)@.next_id == old(self)@.next_id + 1,
            final(self)@.downloads == old(self)@.downloads.push(d),
            well_formed(old(self)@) ==> well_formed(final(self)@),
    {
        self.next_id = self.next_id + 1;
        let id = self.next_id;
        let download = Download {
            id,
            user_id: new.user_id,
            channel_id: new.channel_id,
            guild_id: new.guild_id,
            query: new.query,
            title: new.title,
            tag: tag_of(id),
            lang: new.lang,
            added_at: now,
            last_checked_at: now,
            stuck_marked_at: None,
            last_digest_at: None,
        };
        let copy = download.duplicate();
        self.downloads.push(download);
        proof {
            if well_formed(old(self)@) {
                let w = self@.downloads;
                assert forall|a: int, b: int| 0 <= a < b < w.len() implies #[trigger] w[a].id
                    < #[trigger] w[b].id by {
                    assert(w[a] == old(self)@.downloads[a]);
                    if b < w.len() - 1 {
                        assert(w[b] == old(self)@.downloads[b]);
                    }
                }
                assert forall|a: int| 0 <= a < w.len() implies #[trigger] w[a].id <= self@.next_id
                    && w[a].tag@ == tag_for(w[a].id as nat) by {
                    if a < w.len() - 1 {
                        assert(w[a] == old(self)@.downloads[a]);
                    }
                }
            }
        }
        copy
    }

    pub fn for_user(&self, user_id: u64) -> (r: Vec<&Download>)
        ensures
            r@.len() == self@.downloads.filter(owned_by(user_id)).len(),
            forall|i: int|
                0 <= i < r@.len() ==> *r@[i] == #[trigger] self@.downloads.filter(owned_by(user_id))[i],
    {
        let ghost p = owned_by(user_id);
        let mut r: Vec<&Download> = Vec::new();
        let mut i: usize = 0;
        while i < self.downloads.len()
            invariant
                i <= self.downloads@.len(),
                p == owned_by(user_id),
                r@.len() == self.downloads@.subrange(0, i as int).filter(p).len(),
                forall|k: int|
                    0 <= k < r@.len() ==> *r@[k] == #[trigger] self.downloads@.subrange(
                        0,
                        i as int,
                    ).filter(p)[k],
            decreases self.downloads@.len() - i,
        {
            proof {
                lemma_filter_prefix(self.downloads@, p, i as int);
            }
            if self.downloads[i].user_id == user_id {
                r.push(&self.downloads[i]);
            }
            i = i + 1;
        }
        assert(self.downloads@.subrange(0, i as int) =~= self.downloads@);
        r
    }

    /// Every tracked download, for the sweep that checks all of them each tick.
    pub fn all(&self) -> (r: &[Download])
        ensures
            r@ == self@.downloads,
    {
        self.downloads.as_slice()
    }

    /// Where the first download selected by the predicate stands.
    fn position_where(&self, id: u64, user_id: Option<u64>) -> (r: Option<usize>)
        ensures
            ({
                let p = match user_id {
                    Some(u) => owned_with_id(id, u),
                    None => with_id(id),
                };
                match first_where(self@.downloads, p) {
                    Some(i) => 0 <= i < self@.downloads.len() && (r matches Some(k) && k as int == i),
                    None => r is None,
                }
            }),
    {
        let ghost p = match user_id {
            Some(u) => owned_with_id(id, u),
            None => with_id(id),
        };
        proof {
            lemma_first_where_found(self@.downloads, p);
        }
        let mut i: usize = 0;
        while i < self.downloads.len()
            invariant
                i <= self.downloads@.len(),
                p == (match user_id {
                    Some(u) => owned_with_id(id, u),
                    None => with_id(id),
                }),
                forall|j: int| 0 <= j < i ==> !p(#[trigger] self.downloads@[j]),
            decreases self.downloads@.len() - i,
        {
            let d = &self.downloads[i];
            let hit = d.id == id && match user_id {
                Some(u) => d.user_id == u,
                None => true,
            };
            if hit {
                proof {
                    crate::seqs::lemma_first_where_is(self.downloads@, p, i as int);
                }
                return Some(i);
            }
            i = i + 1;
        }
        proof {
            crate::seqs::lemma_first_where_none(self.downloads@, p);
        }
        None
    }

    /// Removes a download, but only for the user tracking it.
    pub fn remove(&mut self, id: u64, user_id: u64) -> (r: Option<Download>)
        ensures
            removed_where(old(self)@, final(self)@, owned_with_id(id, user_id), r),
            well_formed(old(self)@) ==> well_formed(final(self)@),
    {
        match self.position_where(id, Some(user_id)) {
            Some(i) => {
                proof {
                    if well_formed(old(self)@) {
                        lemma_remove_well_formed(old(self)@, i as int);
                    }
                }
                Some(self.downloads.remove(i))
            },
            None => None,
        }
    }

    /// Removes without checking ownership: the background sweep confirming a
    /// download is finished, or rolling back a reservation `qbit.add` failed
    /// to honour.
    pub fn take(&mut self, id: u64) -> (r: Option<Download>)
        ensures
            removed_where(old(self)@, final(self)@, with_id(id), r),
            well_formed(old(self)@) ==> well_formed(final(self)@),
    {
        match self.position_where(id, None) {
            Some(i) => {
                proof {
                    if well_formed(old(self)@) {
                        lemma_remove_well_formed(old(self)@, i as int);
                    }
                }
                Some(self.downloads.remove(i))
            },
            None => None,
        }
    }

    /// Only the owner can flag their own download. Returns whether it found one.
    pub fn mark_stuck(&mut self, id: u64, user_id: u64, now: i64) -> (found: bool)
        ensures
            found == first_where(old(self)@.downloads, owned_with_id(id, user_id)) is Some,
            final(self)@.next_id == old(self)@.next_id,
            final(self)@.downloads == updated_where(
                old(self)@.downloads,
                owned_with_id(id, user_id),
                |d: Download| stuck(d, now),
            ),
            well_formed(old(self)@) ==> well_formed(final(self)@),
    {
        match self.position_where(id, Some(user_id)) {
            Some(i) => {
                let mut d = self.downloads[i].duplicate();
                d.stuck_marked_at = Some(now);
                assert(d == stuck(old(self)@.downloads[i as int], now));
                proof {
                    if well_formed(old(self)@) {
                        lemma_update_well_formed(old(self)@, i as int, d);
                    }
                }
                self.downloads.set(i, d);
                true
            },
            None => false,
        }
    }

    pub fn mark_checked(&mut self, id: u64, now: i64)
        ensures
            final(self)@.next_id == old(self)@.next_id,
            final(self)@.downloads == updated_where(
                old(self)@.downloads,
                with_id(id),
                |d: Download| checked(d, now),
            ),
            well_formed(old(self)@) ==> well_formed(final(self)@),
    {
        match self.position_where(id, None) {
            Some(i) => {
                let mut d = self.downloads[i].duplicate();
                d.last_checked_at = now;
                assert(d == checked(old(self)@.downloads[i as int], now));
                proof {
                    if well_formed(old(self)@) {
                        lemma_update_well_formed(old(self)@, i as int, d);
                    }
                }
                self.downloads.set(i, d);
            },
            None => {},
        }
    }

    /// Stuck downloads not yet mentioned today.
    pub fn due_for_digest(&self, now: i64, interval: i64) -> (r: Vec<Download>)
        requires
            forall|i: int|
                0 <= i < self@.downloads.len() ==> digest_computable(#[trigger] self@.downloads[i], now),
        ensures
            r@ == self@.downloads.filter(is_digest_due(now, interval)),
    {
        let ghost p = is_digest_due(now, interval);
        let mut r: Vec<Download> = Vec::new();
        let mut i: usize = 0;
        while i < self.downloads.len()
            invariant
                i <= self.downloads@.len(),
                p == is_digest_due(now, interval),
                forall|k: int|
                    0 <= k < self@.downloads.len() ==> digest_computable(#[trigger] self@.downloads[k], now),
                r@ == self.downloads@.subrange(0, i as int).filter(p),
            decreases self.downloads@.len() - i,
        {
            proof {
                lemma_filter_prefix(self.downloads@, p, i as int);
            }
            let d = &self.downloads[i];
            assert(digest_computable(self@.downloads[i as int], now));
            let due = d.stuck_marked_at.is_some() && match d.last_digest_at {
                None => true,
                Some(last) => now - last >= interval,
            };
            if due {
                r.push(d.duplicate());
            }
            i = i + 1;
        }
        assert(self.downloads@.subrange(0, i as int) =~= self.downloads@);
        r
    }

    pub fn mark_digested(&mut self, id: u64, now: i64)
        ensures
            final(self)@.next_id == old(self)@.next_id,
            final(self)@.downloads == updated_where(
                old(self)@.downloads,
                with_id(id),
                |d: Download| digested(d, now),
            ),
            well_formed(old(self)@) ==> well_formed(final(self)@),
    {
        match self.position_where(id, None) {
            Some(i) => {
                let mut d = self.downloads[i].duplicate();
                d.last_digest_at = Some(now);
                assert(d == digested(old(self)@.downloads[i as int], now));
                proof {
                    if well_formed(old(self)@) {
                        lemma_update_well_formed(old(self)@, i as int, d);
                    }
                }
                self.downloads.set(i, d);
            },
            None => {},
        }
    }

    pub fn len(&self) -> (n: usize)
        ensures
            n == self@.downloads.len(),
    {
        self.downloads.len()
    }

    pub fn is_empty(&self) -> (b: bool)
        ensures
            b == (self@.downloads.len() == 0),
    {
        self.downloads.len() == 0
    }
}


/// Each download carries a tag no other download in the list carries, so the
/// sweep finds exactly the download it is looking for.
pub proof fn tags_are_unique(s: StateView, i: int, j: int)
    requires
        well_formed(s),
        0 <= i < s.downloads.len(),
        0 <= j < s.downloads.len(),
        i != j,
    ensures
        s.downloads[i].tag@ != s.downloads[j].tag@,
{
    if s.downloads[i].tag@ == s.downloads[j].tag@ {
        let a = s.downloads[i].id as nat;
        let b = s.downloads[j].id as nat;
        reveal_strlit("biblio-");
        assert(tag_for(a).subrange(7, tag_for(a).len() as int) =~= decimal(a));
        assert(tag_for(b).subrange(7, tag_for(b).len() as int) =~= decimal(b));
        crate::text::lemma_decimal_injective(a, b);
        if i < j {
            assert(s.downloads[i].id < s.downloads[j].id);
        } else {
            assert(s.downloads[j].id < s.downloads[i].id);
        }
    }
}

/// A new download's id is larger than every id in a well-formed list, so no
/// id, and no tag, is ever handed out twice.
pub proof fn new_ids_are_fresh(s: StateView, d: Download, new: NewDownload, now: i64)
    requires
        well_formed(s),
        is_created(d, s, new, now),
    ensures
        forall|i: int| 0 <= i < s.downloads.len() ==> (#[trigger] s.downloads[i]).id < d.id,
{
}

/// Another user can neither remove nor flag someone's download.
pub proof fn only_the_owner_acts_on_a_download(s: StateView, id: u64, owner: u64, other: u64)
    requires
        well_formed(s),
        owner != other,
        exists|i: int| 0 <= i < s.downloads.len() && #[trigger] s.downloads[i].id == id
            && s.downloads[i].user_id == owner,
    ensures
        first_where(s.downloads, owned_with_id(id, other)) is None,
{
    let i = choose|i: int| 0 <= i < s.downloads.len() && #[trigger] s.downloads[i].id == id
        && s.downloads[i].user_id == owner;
    assert forall|j: int| 0 <= j < s.downloads.len() implies !owned_with_id(id, other)(
        #[trigger] s.downloads[j],
    ) by {
        if j != i && s.downloads[j].id == id {
            if j < i {
                assert(s.downloads[j].id < s.downloads[i].id);
            } else {
                assert(s.downloads[i].id < s.downloads[j].id);
            }
        }
    }
    crate::seqs::lemma_first_where_none(s.downloads, owned_with_id(id, other));
}

/// An id, and so a tag, is never handed out twice, removals notwithstanding:
/// every operation keeps or raises the last id handed out, so a download added
/// later than another always gets a larger id.
pub proof fn a_later_download_gets_a_larger_id(
    before: StateView,
    first: Download,
    first_new: NewDownload,
    first_at: i64,
    after: StateView,
    later: StateView,
    second: Download,
    second_new: NewDownload,
    second_at: i64,
)
    requires
        is_created(first, before, first_new, first_at),
        after.next_id == before.next_id + 1,
        later.next_id >= after.next_id,
        is_created(second, later, second_new, second_at),
    ensures
        second.id > first.id,
{
}

} // verus!

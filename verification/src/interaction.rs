//! The decisions the slash commands take between their Discord exchanges.

use crate::i18n::{
    watch_already_text, watch_created_text, watch_fulfilled_text, watch_stopped_for_text,
    watch_stopped_text, watch_too_many_text, watchlist_empty_text, Lang,
};
use crate::prowlarr::Release;
use crate::text::{chars_of, decimal, parse_decimal, parse_unsigned, push_decimal};
use crate::ui::{added_embed, failed_embed, is_added_embed, is_failed_embed, Embed};
use crate::watchlist::{
    fulfils, guild_with_id, keeps, owned_with_id, removed_where, well_formed, RejectedWatch, State, Watch,
};
use vstd::prelude::*;
use vstd::string::*;

verus! {

/// The custom id of a component: a prefix naming its purpose, `:`, and the
/// id of the interaction it belongs to.
pub fn custom_id(prefix: &str, interaction: u64) -> (s: String)
    ensures
        s@ == prefix@ + ":"@ + decimal(interaction as nat),
{
    let mut s = String::from_str(prefix);
    s.append(":");
    push_decimal(&mut s, interaction);
    s
}

/// How many of `n` results a search shows when it shows at most `max`.
pub open spec fn shown_count(n: nat, max: usize) -> nat {
    if n <= max {
        n
    } else {
        max as nat
    }
}

/// As many results as are found are shown, up to `max`: never more than
/// either, and exactly `max` whenever at least that many are found.
pub proof fn a_search_shows_as_many_results_as_allowed(n: nat, max: usize)
    ensures
        shown_count(n, max) <= n,
        shown_count(n, max) <= max,
        n >= max ==> shown_count(n, max) == max,
        n <= max ==> shown_count(n, max) == n,
{
}

/// The releases a search shows: the first `max_results` of them, in the order
/// they came. `None` when that leaves nothing, and a standing search is
/// offered instead.
pub fn shown_results(results: Vec<Release>, max_results: usize) -> (r: Option<Vec<Release>>)
    ensures
        match r {
            Some(shown) => shown@ == results@.take(shown_count(results@.len(), max_results) as int)
                && 0 < shown@.len() <= max_results,
            None => shown_count(results@.len(), max_results) == 0,
        },
        match r {
            Some(shown) => shown@ == results@.take(shown@.len() as int) && (shown@.len()
                == results@.len() || shown@.len() == max_results),
            None => results@.len() == 0 || max_results == 0,
        },
{
    let mut shown = results;
    let ghost all = shown@;
    shown.truncate(max_results);
    assert(shown@ =~= all.take(shown_count(all.len(), max_results) as int));
    if shown.len() == 0 {
        None
    } else {
        Some(shown)
    }
}

/// The id a menu answer picks: its first value, read as a number.
pub fn selected_id(values: &[String]) -> (r: Option<u64>)
    ensures
        match (if values@.len() > 0 {
            parse_unsigned(values@[0]@, u64::MAX as nat)
        } else {
            None
        }) {
            Some(n) => r == Some(n as u64),
            None => r is None,
        },
{
    if values.len() == 0 {
        return None;
    }
    let chars = chars_of(values[0].as_str());
    parse_decimal(chars.as_slice(), u64::MAX)
}

/// What a user is told after asking to keep a search running.
pub fn watch_reply(
    lang: Lang,
    outcome: Result<(), RejectedWatch>,
    query: &str,
    checks_per_day: u32,
    max_days: i64,
    max_per_user: usize,
) -> (s: String)
    ensures
        s@ == match outcome {
            Ok(()) => watch_created_text(lang, query@, checks_per_day as nat, max_days as int),
            Err(RejectedWatch::AlreadyWatching) => watch_already_text(lang, query@),
            Err(RejectedWatch::TooMany) => watch_too_many_text(lang, max_per_user as nat),
        },
{
    match outcome {
        Ok(()) => lang.watch_created(query, checks_per_day, max_days),
        Err(RejectedWatch::AlreadyWatching) => lang.watch_already(query),
        Err(RejectedWatch::TooMany) => lang.watch_too_many(max_per_user),
    }
}

/// The note added to a download's confirmation when it closed a standing
/// search: the first fulfilled watch is named; nothing when none was.
pub fn fulfilment_note(lang: Lang, fulfilled: &[Watch]) -> (s: String)
    ensures
        s@ == if fulfilled@.len() > 0 {
            watch_fulfilled_text(lang, fulfilled@[0].query@)
        } else {
            Seq::empty()
        },
{
    if fulfilled.len() > 0 {
        lang.watch_fulfilled(fulfilled[0].query.as_str())
    } else {
        String::new()
    }
}

/// Who a listing belongs to, and therefore what stopping an entry is allowed
/// to touch.
#[derive(Debug, Clone, Copy, PartialEq, Eq, Structural)]
pub enum Scope {
    /// Only the caller's own watches.
    Own(u64),
    /// Every watch in this server, for someone who moderates it.
    Guild(u64),
}

/// Stops a watch within a scope: the caller's own, or any in the server.
pub fn stop_watch(state: &mut State, scope: Scope, id: u64) -> (r: Option<Watch>)
    ensures
        match scope {
            Scope::Own(user_id) => removed_where(old(state)@, final(state)@, owned_with_id(id, user_id), r),
            Scope::Guild(guild_id) => removed_where(
                old(state)@,
                final(state)@,
                guild_with_id(id, guild_id),
                r,
            ),
        },
        well_formed(old(state)@) ==> well_formed(final(state)@),
{
    match scope {
        Scope::Own(user_id) => state.remove(id, user_id),
        Scope::Guild(guild_id) => state.remove_within_guild(id, guild_id),
    }
}

/// What a user is told after stopping a watch: for a moderator, whose watch
/// it was; when nothing was stopped, that there is nothing to stop.
pub fn stop_reply(lang: Lang, removed: &Option<Watch>, scope: Scope) -> (s: String)
    ensures
        s@ == match (*removed, scope) {
            (Some(w), Scope::Own(_)) => watch_stopped_text(lang, w.query@),
            (Some(w), Scope::Guild(_)) => watch_stopped_for_text(lang, w.query@, w.user_id as nat),
            (None, _) => watchlist_empty_text(lang),
        },
{
    match (removed, scope) {
        (Some(w), Scope::Own(_)) => lang.watch_stopped(w.query.as_str()),
        (Some(w), Scope::Guild(_)) => lang.watch_stopped_for(w.query.as_str(), w.user_id),
        (None, _) => String::from_str(lang.watchlist_empty()),
    }
}

/// What a user sees once their pick was sent to qBittorrent (`Ok`, with the
/// save path used) or refused (`Err`, with the reason), and the standing
/// searches it closes. Downloading is what closes a standing search: a
/// successful download drops the user's watches for those words and names the
/// first of them; a failed one leaves the list as it was.
pub fn download_reply(
    state: &mut State,
    user_id: u64,
    query: &str,
    release: &Release,
    category: &str,
    outcome: &Result<String, String>,
    lang: Lang,
) -> (r: (Embed, String))
    ensures
        final(state)@.next_id == old(state)@.next_id,
        well_formed(old(state)@) ==> well_formed(final(state)@),
        match outcome {
            Ok(save_path) => {
                let closed = old(state)@.watches.filter(fulfils(user_id, query@));
                &&& final(state)@.watches == old(state)@.watches.filter(keeps(user_id, query@))
                &&& is_added_embed(r.0, *release, category@, save_path@, lang)
                &&& r.1@ == if closed.len() > 0 {
                    watch_fulfilled_text(lang, closed[0].query@)
                } else {
                    Seq::empty()
                }
            },
            Err(reason) => {
                &&& final(state)@.watches == old(state)@.watches
                &&& is_failed_embed(r.0, *release, reason@, lang)
                &&& r.1@ == Seq::<char>::empty()
            },
        },
{
    match outcome {
        Ok(save_path) => {
            let closed = state.fulfil(user_id, query);
            let note = fulfilment_note(lang, closed.as_slice());
            (added_embed(release, category, save_path.as_str(), lang), note)
        },
        Err(reason) => (failed_embed(release, reason.as_str(), lang), String::new()),
    }
}

} // verus!

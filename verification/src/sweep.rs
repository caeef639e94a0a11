//! The decisions of the background sweep that re-runs standing searches:
//! what a search outcome means for a watch, and what its owner is told.

use crate::i18n::{watch_found_text, watch_gave_up_text, Lang};
use crate::prowlarr::Release;
use crate::text::{decimal, push_decimal};
use crate::ui::{results_description, results_embed, Embed, BLUE};
use crate::watchlist::{checked, notified, State, Watch, with_id, well_formed};
use crate::seqs::first_where;
use vstd::prelude::*;
use vstd::string::*;

verus! {

/// A message addressed to a user: a mention, a space, then the text.
pub open spec fn mention_text(user_id: u64, content: Seq<char>) -> Seq<char> {
    "<@"@ + decimal(user_id as nat) + "> "@ + content
}

pub fn mention(user_id: u64, content: &str) -> (s: String)
    ensures
        s@ == mention_text(user_id, content@),
{
    let mut s = String::from_str("<@");
    push_decimal(&mut s, user_id);
    s.append("> ");
    s.append(content);
    s
}

/// What one check of a watch found.
#[derive(Debug, Clone, PartialEq, Eq)]
pub enum CheckOutcome {
    /// Something turned up: tell the owner, with the results.
    Found { message: String, embed: Embed },
    /// Nothing yet, or the search failed: check again one interval later.
    /// Counting a failed search as a check keeps a broken Prowlarr from being
    /// retried on every single tick.
    Retry,
}

/// What a check found, given the search results (`None` when the search
/// failed): results turn up at most `max_results` of them, announced in the
/// watch's language.
pub fn check_outcome(watch: &Watch, search: Option<Vec<Release>>, max_results: usize) -> (r:
    CheckOutcome)
    ensures
        match search {
            Some(results) if results@.len() > 0 => r matches CheckOutcome::Found { message, embed }
                && message@ == mention_text(watch.user_id, watch_found_text(watch.lang, watch.query@))
                && embed.title@ == "📚 "@ + watch.query@
                && embed.description@ == results_description(
                    results@.take(if results@.len() <= max_results {
                        results@.len() as int
                    } else {
                        max_results as int
                    }),
                    watch.lang,
                ) && embed.colour == BLUE && embed.fields@.len() == 0,
            _ => r == CheckOutcome::Retry,
        },
{
    match search {
        Some(results) => {
            if results.len() == 0 {
                return CheckOutcome::Retry;
            }
            let mut results = results;
            let ghost all = results@;
            results.truncate(max_results);
            assert(results@ =~= all.take(if all.len() <= max_results {
                all.len() as int
            } else {
                max_results as int
            }));
            let found = watch.lang.watch_found(watch.query.as_str());
            let message = mention(watch.user_id, found.as_str());
            let embed = results_embed(watch.query.as_str(), results.as_slice(), watch.lang);
            CheckOutcome::Found { message, embed }
        },
        None => CheckOutcome::Retry,
    }
}

/// Records a check in the list: a found watch is marked as notified (which
/// stops the searching but keeps it listed until the download), any other is
/// marked as checked.
pub fn record_outcome(state: &mut State, id: u64, found: bool, now: i64)
    requires
        !found ==> match first_where(old(state)@.watches, with_id(id)) {
            Some(i) => old(state)@.watches[i].checks < u32::MAX,
            None => true,
        },
    ensures
        final(state)@.next_id == old(state)@.next_id,
        final(state)@.watches == match first_where(old(state)@.watches, with_id(id)) {
            Some(i) => old(state)@.watches.update(
                i,
                if found {
                    notified(old(state)@.watches[i], now)
                } else {
                    checked(old(state)@.watches[i], now)
                },
            ),
            None => old(state)@.watches,
        },
        well_formed(old(state)@) ==> well_formed(final(state)@),
{
    if found {
        state.mark_notified(id, now);
    } else {
        state.mark_checked(id, now);
    }
}

/// What the owner of an expired watch is told.
pub fn expiry_notice(watch: &Watch, max_days: i64) -> (s: String)
    ensures
        s@ == mention_text(watch.user_id, watch_gave_up_text(watch.lang, watch.query@, max_days as int)),
{
    let text = watch.lang.watch_gave_up(watch.query.as_str(), max_days);
    mention(watch.user_id, text.as_str())
}

} // verus!

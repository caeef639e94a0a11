use biblio_bot::watchlist::epoch_seconds;
use biblio_bot::i18n::Lang;
use biblio_bot::watchlist::{now_secs, NewWatch, RejectedWatch, State};
use biblio_bot::SECONDS_PER_DAY;

const HOUR: i64 = 3_600;

fn request(user_id: u64, guild_id: Option<u64>, query: &str, lang: Lang) -> NewWatch {
    NewWatch {
        user_id,
        channel_id: 100,
        guild_id,
        query: query.to_owned(),
        lang,
    }
}

fn state_with(entries: &[(u64, &str, i64)]) -> State {
    let mut state = State::default();
    for (user, query, now) in entries {
        state
            .add(request(*user, Some(1), query, Lang::En), *now, 10)
            .expect("accepted");
    }
    state
}

#[test]
fn adding_assigns_increasing_ids() {
    let state = state_with(&[(1, "dune", 0), (1, "neuromancer", 0)]);
    let ids: Vec<u64> = state.for_user(1).iter().map(|w| w.id).collect();
    assert_eq!(ids, [1, 2]);
}

#[test]
fn a_new_watch_is_not_immediately_due() {
    // The search that created it just ran; checking again at once is waste.
    let state = state_with(&[(1, "dune", 1_000)]);
    assert!(state.due(1_000, HOUR).is_empty());
}

#[test]
fn a_watch_becomes_due_after_one_interval() {
    let state = state_with(&[(1, "dune", 1_000)]);
    assert!(state.due(1_000 + HOUR - 1, HOUR).is_empty());
    assert_eq!(state.due(1_000 + HOUR, HOUR).len(), 1);
}

#[test]
fn the_same_query_cannot_be_watched_twice_by_one_user() {
    let mut state = state_with(&[(1, "dune", 0)]);
    assert_eq!(
        state.add(request(1, Some(1), "dune", Lang::En), 0, 10),
        Err(RejectedWatch::AlreadyWatching)
    );
    assert_eq!(state.len(), 1);
}

#[test]
fn two_users_may_watch_the_same_query() {
    let mut state = state_with(&[(1, "dune", 0)]);
    assert!(
        state
            .add(request(2, Some(1), "dune", Lang::En), 0, 10)
            .is_ok()
    );
    assert_eq!(state.len(), 2);
}

#[test]
fn a_user_is_capped_but_others_are_unaffected() {
    let mut state = State::default();
    state.add(request(1, Some(1), "a", Lang::En), 0, 2).unwrap();
    state.add(request(1, Some(1), "b", Lang::En), 0, 2).unwrap();

    assert_eq!(
        state.add(request(1, Some(1), "c", Lang::En), 0, 2),
        Err(RejectedWatch::TooMany)
    );
    assert!(state.add(request(2, Some(1), "c", Lang::En), 0, 2).is_ok());
}

#[test]
fn watchlist_removing_is_limited_to_the_owner() {
    let mut state = state_with(&[(1, "dune", 0)]);
    let id = state.for_user(1)[0].id;

    assert!(
        state.remove(id, 999).is_none(),
        "another user must not remove it"
    );
    assert_eq!(state.remove(id, 1).unwrap().query, "dune");
    assert!(state.is_empty());
}

#[test]
fn removing_an_unknown_id_changes_nothing() {
    let mut state = state_with(&[(1, "dune", 0)]);
    assert!(state.remove(4_242, 1).is_none());
    assert_eq!(state.len(), 1);
}

#[test]
fn for_user_only_returns_that_users_watches() {
    let state = state_with(&[(1, "dune", 0), (2, "neuromancer", 0), (1, "hyperion", 0)]);
    let queries: Vec<&str> = state.for_user(1).iter().map(|w| w.query.as_str()).collect();
    assert_eq!(queries, ["dune", "hyperion"]);
}

#[test]
fn marking_a_check_pushes_the_next_one_back_and_counts_it() {
    let mut state = state_with(&[(1, "dune", 0)]);
    let id = state.for_user(1)[0].id;

    state.mark_checked(id, HOUR);
    assert!(state.due(HOUR, HOUR).is_empty());
    assert_eq!(state.for_user(1)[0].checks, 1);
    assert_eq!(state.due(2 * HOUR, HOUR).len(), 1);
}

#[test]
fn the_next_check_is_a_full_interval_after_creation() {
    let state = state_with(&[(1, "dune", 1_000)]);
    assert_eq!(state.seconds_until_next_due(1_000, HOUR), Some(HOUR));
    assert_eq!(
        state.seconds_until_next_due(1_000 + HOUR / 2, HOUR),
        Some(HOUR / 2)
    );
}

#[test]
fn the_next_check_is_the_soonest_of_all_watches() {
    let mut state = State::default();
    state
        .add(request(1, Some(1), "late", Lang::En), 1_000, 10)
        .unwrap();
    state
        .add(request(1, Some(1), "soon", Lang::En), 500, 10)
        .unwrap();

    assert_eq!(state.seconds_until_next_due(1_000, HOUR), Some(HOUR - 500));
}

#[test]
fn an_overdue_watch_reports_zero_rather_than_a_negative() {
    let state = state_with(&[(1, "dune", 0)]);
    assert_eq!(state.seconds_until_next_due(10 * HOUR, HOUR), Some(0));
}

#[test]
fn a_watch_waiting_on_its_owner_is_not_counted() {
    let mut state = state_with(&[(1, "dune", 0)]);
    state.mark_notified(state.for_user(1)[0].id, 0);
    assert_eq!(state.seconds_until_next_due(0, HOUR), None);
}

#[test]
fn an_empty_watchlist_has_no_next_check() {
    assert_eq!(State::default().seconds_until_next_due(0, HOUR), None);
}

#[test]
fn marking_an_unknown_id_is_harmless() {
    let mut state = state_with(&[(1, "dune", 0)]);
    state.mark_checked(4_242, HOUR);
    assert_eq!(state.for_user(1)[0].checks, 0);
}

#[test]
fn expiry_is_counted_from_creation_not_from_the_last_check() {
    let mut state = state_with(&[(1, "dune", 0)]);
    let id = state.for_user(1)[0].id;
    state.mark_checked(id, 20 * SECONDS_PER_DAY);

    let expired = state.prune_expired(30 * SECONDS_PER_DAY, 30 * SECONDS_PER_DAY);
    assert_eq!(expired.len(), 1);
    assert!(state.is_empty());
}

#[test]
fn pruning_keeps_what_is_still_young() {
    let mut state = state_with(&[(1, "old", 0), (1, "new", 29 * SECONDS_PER_DAY)]);
    let expired = state.prune_expired(30 * SECONDS_PER_DAY, 30 * SECONDS_PER_DAY);

    assert_eq!(expired.len(), 1);
    assert_eq!(expired[0].query, "old");
    assert_eq!(state.len(), 1);
}

#[test]
fn a_notified_watch_stops_being_searched() {
    let mut state = state_with(&[(1, "dune", 0)]);
    let id = state.for_user(1)[0].id;
    assert_eq!(state.due(HOUR, HOUR).len(), 1);

    state.mark_notified(id, HOUR);
    assert!(state.due(10 * HOUR, HOUR).is_empty());
}

#[test]
fn a_notified_watch_is_still_listed_until_it_is_downloaded() {
    let mut state = state_with(&[(1, "dune", 0)]);
    state.mark_notified(state.for_user(1)[0].id, HOUR);

    assert_eq!(state.for_user(1).len(), 1);
    assert!(state.for_user(1)[0].notified_at.is_some());
}

#[test]
fn marking_an_unknown_id_as_notified_is_harmless() {
    let mut state = state_with(&[(1, "dune", 0)]);
    state.mark_notified(4_242, HOUR);
    assert!(state.for_user(1)[0].notified_at.is_none());
}

#[test]
fn downloading_clears_the_matching_watch() {
    let mut state = state_with(&[(1, "dune", 0), (1, "hyperion", 0)]);
    let fulfilled = state.fulfil(1, "dune");

    assert_eq!(fulfilled.len(), 1);
    assert_eq!(fulfilled[0].query, "dune");
    assert_eq!(state.for_user(1).len(), 1);
}

#[test]
fn matching_a_query_ignores_case_and_padding() {
    let mut state = state_with(&[(1, "dune", 0)]);
    assert_eq!(state.fulfil(1, "  DUNE  ").len(), 1);
}

#[test]
fn downloading_does_not_touch_another_users_watch() {
    let mut state = state_with(&[(1, "dune", 0), (2, "dune", 0)]);
    assert_eq!(state.fulfil(1, "dune").len(), 1);
    assert_eq!(state.for_user(2).len(), 1);
}

#[test]
fn downloading_something_unwatched_changes_nothing() {
    let mut state = state_with(&[(1, "dune", 0)]);
    assert!(state.fulfil(1, "neuromancer").is_empty());
    assert_eq!(state.len(), 1);
}

#[test]
fn a_guild_view_shows_every_owner_but_only_that_guild() {
    let mut state = State::default();
    state
        .add(request(1, Some(10), "dune", Lang::En), 0, 10)
        .unwrap();
    state
        .add(request(2, Some(10), "hyperion", Lang::En), 0, 10)
        .unwrap();
    state
        .add(request(3, Some(99), "elsewhere", Lang::En), 0, 10)
        .unwrap();

    let queries: Vec<&str> = state
        .for_guild(10)
        .iter()
        .map(|w| w.query.as_str())
        .collect();
    assert_eq!(queries, ["dune", "hyperion"]);
}

#[test]
fn a_guild_view_ignores_watches_with_no_guild() {
    let mut state = State::default();
    state
        .add(request(1, None, "direct message", Lang::En), 0, 10)
        .unwrap();
    assert!(state.for_guild(10).is_empty());
}

#[test]
fn a_moderator_can_stop_someone_elses_watch() {
    let mut state = State::default();
    state
        .add(request(1, Some(10), "dune", Lang::En), 0, 10)
        .unwrap();
    let id = state.for_guild(10)[0].id;

    assert_eq!(state.remove_within_guild(id, 10).unwrap().query, "dune");
    assert!(state.is_empty());
}

#[test]
fn a_moderator_cannot_reach_into_another_guild() {
    let mut state = State::default();
    state
        .add(request(1, Some(99), "dune", Lang::En), 0, 10)
        .unwrap();
    let id = state.for_guild(99)[0].id;

    assert!(state.remove_within_guild(id, 10).is_none());
    assert_eq!(state.len(), 1);
}

#[test]
fn now_secs_is_a_plausible_unix_timestamp() {
    assert!(now_secs() > 1_700_000_000);
}

#[test]
fn a_clock_reading_becomes_a_timestamp() {
    assert_eq!(epoch_seconds(Some(1_700_000_000)), 1_700_000_000);
    assert_eq!(epoch_seconds(None), 0);
    assert_eq!(epoch_seconds(Some(u64::MAX)), -1);
}

#[test]
fn an_id_is_not_handed_out_again_after_a_removal() {
    let mut state = state_with(&[(1, "dune", 0), (1, "neuromancer", 0)]);
    assert!(state.remove(2, 1).is_some());
    let added = state
        .add(request(1, Some(1), "hyperion", Lang::En), 0, 10)
        .expect("accepted");
    assert_eq!(added.id, 3);
}

#[test]
fn the_next_check_is_the_earliest_of_the_searching_watches() {
    let mut state = state_with(&[(1, "dune", 1_000), (1, "neuromancer", 2_000)]);
    assert_eq!(state.seconds_until_next_due(1_500, HOUR), Some(HOUR - 500));
    state.mark_notified(1, 1_500);
    assert_eq!(state.seconds_until_next_due(1_500, HOUR), Some(HOUR + 500));
    assert_eq!(state.seconds_until_next_due(10 * HOUR, HOUR), Some(0));
}

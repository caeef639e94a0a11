use biblio_bot::downloads::{NewDownload, State};
use biblio_bot::i18n::Lang;
use biblio_bot::watchlist::now_secs;

const DAY: i64 = 86_400;

fn request(user_id: u64, query: &str, title: &str) -> NewDownload {
    NewDownload {
        user_id,
        channel_id: 100,
        guild_id: Some(1),
        query: query.to_owned(),
        title: title.to_owned(),
        lang: Lang::En,
    }
}

fn state_with(entries: &[(u64, &str, &str)]) -> State {
    let mut state = State::default();
    for (user, query, title) in entries {
        state.add(request(*user, query, title), 0);
    }
    state
}

#[test]
fn adding_assigns_increasing_ids_and_derived_tags() {
    let state = state_with(&[(1, "dune", "Dune"), (1, "hyperion", "Hyperion")]);
    let downloads = state.for_user(1);
    assert_eq!(downloads[0].id, 1);
    assert_eq!(downloads[0].tag, "biblio-1");
    assert_eq!(downloads[1].id, 2);
    assert_eq!(downloads[1].tag, "biblio-2");
}

#[test]
fn all_returns_every_tracked_download() {
    let state = state_with(&[(1, "dune", "Dune"), (2, "hyperion", "Hyperion")]);
    assert_eq!(state.all().len(), 2);
}

#[test]
fn for_user_only_returns_that_users_downloads() {
    let state = state_with(&[(1, "dune", "Dune"), (2, "hyperion", "Hyperion")]);
    assert_eq!(state.for_user(1).len(), 1);
    assert_eq!(state.for_user(2).len(), 1);
}

#[test]
fn downloads_removing_is_limited_to_the_owner() {
    let mut state = state_with(&[(1, "dune", "Dune")]);
    let id = state.for_user(1)[0].id;

    assert!(
        state.remove(id, 999).is_none(),
        "another user must not remove it"
    );
    assert_eq!(state.remove(id, 1).unwrap().title, "Dune");
    assert!(state.is_empty());
}

#[test]
fn take_removes_regardless_of_owner() {
    let mut state = state_with(&[(1, "dune", "Dune")]);
    let id = state.for_user(1)[0].id;

    assert_eq!(state.take(id).unwrap().title, "Dune");
    assert!(state.is_empty());
}

#[test]
fn take_of_an_unknown_id_changes_nothing() {
    let mut state = state_with(&[(1, "dune", "Dune")]);
    assert!(state.take(4_242).is_none());
    assert_eq!(state.len(), 1);
}

#[test]
fn mark_stuck_is_limited_to_the_owner() {
    let mut state = state_with(&[(1, "dune", "Dune")]);
    let id = state.for_user(1)[0].id;

    assert!(
        !state.mark_stuck(id, 999, 10),
        "another user must not flag it"
    );
    assert!(state.for_user(1)[0].stuck_marked_at.is_none());

    assert!(state.mark_stuck(id, 1, 10));
    assert_eq!(state.for_user(1)[0].stuck_marked_at, Some(10));
}

#[test]
fn mark_stuck_of_an_unknown_id_is_harmless() {
    let mut state = state_with(&[(1, "dune", "Dune")]);
    assert!(!state.mark_stuck(4_242, 1, 10));
}

#[test]
fn only_stuck_downloads_are_due_for_a_digest() {
    let mut state = state_with(&[(1, "dune", "Dune"), (1, "hyperion", "Hyperion")]);
    let dune = state.for_user(1)[0].id;
    state.mark_stuck(dune, 1, 0);

    let due = state.due_for_digest(DAY, DAY);
    assert_eq!(due.len(), 1);
    assert_eq!(due[0].title, "Dune");
}

#[test]
fn a_download_digested_today_is_not_due_again() {
    let mut state = state_with(&[(1, "dune", "Dune")]);
    let id = state.for_user(1)[0].id;
    state.mark_stuck(id, 1, 0);
    state.mark_digested(id, DAY);

    assert!(state.due_for_digest(DAY + 100, DAY).is_empty());
}

#[test]
fn a_download_digested_a_full_day_ago_is_due_again() {
    let mut state = state_with(&[(1, "dune", "Dune")]);
    let id = state.for_user(1)[0].id;
    state.mark_stuck(id, 1, 0);
    state.mark_digested(id, 0);

    assert_eq!(state.due_for_digest(DAY, DAY).len(), 1);
}

#[test]
fn mark_digested_of_an_unknown_id_is_harmless() {
    let mut state = state_with(&[(1, "dune", "Dune")]);
    state.mark_digested(4_242, 10);
    assert!(state.for_user(1)[0].last_digest_at.is_none());
}

#[test]
fn mark_checked_updates_the_timestamp() {
    let mut state = state_with(&[(1, "dune", "Dune")]);
    let id = state.for_user(1)[0].id;
    state.mark_checked(id, 500);
    assert_eq!(state.for_user(1)[0].last_checked_at, 500);
}

#[test]
fn now_secs_is_reused_from_watchlist() {
    assert!(now_secs() > 1_700_000_000);
}

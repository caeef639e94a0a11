use biblio_bot::i18n::Lang;
use biblio_bot::prowlarr::Release;
use biblio_bot::sweep::{check_outcome, expiry_notice, mention, record_outcome, CheckOutcome};
use biblio_bot::ui::BLUE;
use biblio_bot::watchlist::{NewWatch, State, Watch};

fn watch_in(state: &mut State, user_id: u64, query: &str, lang: Lang, now: i64) -> Watch {
    state
        .add(
            NewWatch {
                user_id,
                channel_id: 100,
                guild_id: Some(1),
                query: query.to_owned(),
                lang,
            },
            now,
            10,
        )
        .expect("accepted")
}

fn release(title: &str, seeders: u32) -> Release {
    Release {
        title: title.to_owned(),
        guid: format!("guid-{title}"),
        indexer_id: 1,
        indexer: "TestIndexer".to_owned(),
        size: 1_000,
        seeders: Some(seeders),
        leechers: Some(0),
        download_url: None,
        magnet_url: Some(format!("magnet:?xt={title}")),
        protocol: "torrent".to_owned(),
    }
}

#[test]
fn a_mention_addresses_the_user_before_the_text() {
    assert_eq!(mention(42, "hello"), "<@42> hello");
    assert_eq!(mention(0, ""), "<@0> ");
}

#[test]
fn results_notify_the_owner_in_the_watch_language() {
    let mut state = State::default();
    let watch = watch_in(&mut state, 7, "dune", Lang::Fr, 0);
    let outcome = check_outcome(&watch, Some(vec![release("Dune", 3)]), 25);
    match outcome {
        CheckOutcome::Found { message, embed } => {
            assert_eq!(message, format!("<@7> {}", Lang::Fr.watch_found("dune")));
            assert_eq!(embed.title, "📚 dune");
            assert_eq!(embed.colour, BLUE);
            assert!(embed.description.contains("Dune"));
        }
        CheckOutcome::Retry => panic!("results were found"),
    }
}

#[test]
fn a_notification_lists_at_most_the_configured_results() {
    let mut state = State::default();
    let watch = watch_in(&mut state, 7, "dune", Lang::En, 0);
    let results = vec![release("First", 3), release("Second", 2), release("Third", 1)];
    match check_outcome(&watch, Some(results), 2) {
        CheckOutcome::Found { embed, .. } => {
            assert!(embed.description.contains("First"));
            assert!(embed.description.contains("Second"));
            assert!(!embed.description.contains("Third"));
        }
        CheckOutcome::Retry => panic!("results were found"),
    }
}

#[test]
fn nothing_found_or_a_failed_search_means_trying_again() {
    let mut state = State::default();
    let watch = watch_in(&mut state, 7, "dune", Lang::En, 0);
    assert_eq!(check_outcome(&watch, Some(vec![]), 25), CheckOutcome::Retry);
    assert_eq!(check_outcome(&watch, None, 25), CheckOutcome::Retry);
}

#[test]
fn a_found_watch_stops_searching_but_stays_listed() {
    let mut state = State::default();
    let watch = watch_in(&mut state, 7, "dune", Lang::En, 0);
    record_outcome(&mut state, watch.id, true, 500);
    assert_eq!(state.len(), 1);
    assert_eq!(state.entries()[0].notified_at, Some(500));
    assert_eq!(state.entries()[0].checks, 0);
    assert!(state.due(1_000_000, 1).is_empty());
}

#[test]
fn a_missed_check_is_counted_and_postpones_the_next() {
    let mut state = State::default();
    let watch = watch_in(&mut state, 7, "dune", Lang::En, 0);
    record_outcome(&mut state, watch.id, false, 500);
    assert_eq!(state.entries()[0].checks, 1);
    assert_eq!(state.entries()[0].last_checked_at, 500);
    assert_eq!(state.entries()[0].notified_at, None);
}

#[test]
fn recording_an_unknown_watch_changes_nothing() {
    let mut state = State::default();
    let watch = watch_in(&mut state, 7, "dune", Lang::En, 0);
    record_outcome(&mut state, watch.id + 1, false, 500);
    assert_eq!(state.entries()[0], watch);
}

#[test]
fn an_expired_watch_tells_its_owner_how_long_it_ran() {
    let mut state = State::default();
    let watch = watch_in(&mut state, 9, "neuromancer", Lang::En, 0);
    assert_eq!(
        expiry_notice(&watch, 30),
        "<@9> Gave up on **neuromancer**: nothing turned up in 30 days."
    );
    let french = watch_in(&mut state, 9, "dune", Lang::Fr, 0);
    assert_eq!(
        expiry_notice(&french, 30),
        "<@9> J'abandonne **dune** : rien n'est sorti en 30 jours."
    );
}

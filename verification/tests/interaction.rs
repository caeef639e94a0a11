use biblio_bot::interaction::download_reply;
use biblio_bot::interaction::shown_results;
use biblio_bot::i18n::Lang;
use biblio_bot::interaction::{
    custom_id, fulfilment_note, selected_id, stop_reply, stop_watch, watch_reply, Scope,
};
use biblio_bot::watchlist::{NewWatch, RejectedWatch, State};

fn state_with(entries: &[(u64, Option<u64>, &str)]) -> State {
    let mut state = State::default();
    for (user_id, guild_id, query) in entries {
        state
            .add(
                NewWatch {
                    user_id: *user_id,
                    channel_id: 100,
                    guild_id: *guild_id,
                    query: (*query).to_owned(),
                    lang: Lang::En,
                },
                0,
                10,
            )
            .expect("accepted");
    }
    state
}

#[test]
fn a_custom_id_names_its_purpose_and_interaction() {
    assert_eq!(custom_id("search", 1234), "search:1234");
    assert_eq!(custom_id("unwatch", 0), "unwatch:0");
}

#[test]
fn a_menu_answer_is_read_as_an_id() {
    assert_eq!(selected_id(&["17".to_owned()]), Some(17));
    assert_eq!(selected_id(&["3".to_owned(), "4".to_owned()]), Some(3));
    assert_eq!(selected_id(&[]), None);
    assert_eq!(selected_id(&["abc".to_owned()]), None);
    assert_eq!(selected_id(&["-1".to_owned()]), None);
    assert_eq!(selected_id(&["18446744073709551616".to_owned()]), None);
}

#[test]
fn the_reply_to_a_watch_request_says_what_happened() {
    assert_eq!(
        watch_reply(Lang::En, Ok(()), "dune", 4, 30, 10),
        Lang::En.watch_created("dune", 4, 30)
    );
    assert_eq!(
        watch_reply(Lang::Fr, Err(RejectedWatch::AlreadyWatching), "dune", 4, 30, 10),
        Lang::Fr.watch_already("dune")
    );
    assert_eq!(
        watch_reply(Lang::En, Err(RejectedWatch::TooMany), "dune", 4, 30, 10),
        "You already have 10 searches running. Stop one with `/watchlist`."
    );
}

#[test]
fn a_download_names_the_first_watch_it_closed() {
    let mut state = state_with(&[(1, Some(1), "Dune"), (1, Some(1), "dune ")]);
    let fulfilled = state.fulfil(1, "dune");
    assert_eq!(fulfilled.len(), 2);
    assert_eq!(
        fulfilment_note(Lang::En, &fulfilled),
        "Removed **Dune** from your watchlist."
    );
    assert_eq!(fulfilment_note(Lang::En, &[]), "");
}

#[test]
fn a_user_stops_only_their_own_watch() {
    let mut state = state_with(&[(1, Some(5), "dune"), (2, Some(5), "neuromancer")]);
    let other = state.entries()[1].id;
    assert_eq!(stop_watch(&mut state, Scope::Own(1), other), None);
    assert_eq!(state.len(), 2);

    let mine = state.entries()[0].id;
    let removed = stop_watch(&mut state, Scope::Own(1), mine);
    assert_eq!(removed.as_ref().map(|w| w.query.as_str()), Some("dune"));
    assert_eq!(state.len(), 1);
    assert_eq!(
        stop_reply(Lang::En, &removed, Scope::Own(1)),
        "Stopped watching **dune**."
    );
}

#[test]
fn a_moderator_stops_any_watch_of_their_server_only() {
    let mut state = state_with(&[(1, Some(5), "dune"), (2, Some(6), "neuromancer")]);
    let elsewhere = state.entries()[1].id;
    assert_eq!(stop_watch(&mut state, Scope::Guild(5), elsewhere), None);

    let here = state.entries()[0].id;
    let removed = stop_watch(&mut state, Scope::Guild(5), here);
    assert_eq!(
        stop_reply(Lang::Fr, &removed, Scope::Guild(5)),
        "J'ai arrêté **dune** pour <@1>."
    );
    assert_eq!(
        stop_reply(Lang::En, &None, Scope::Guild(5)),
        Lang::En.watchlist_empty()
    );
}

fn found(titles: &[&str]) -> Vec<biblio_bot::prowlarr::Release> {
    titles
        .iter()
        .map(|t| biblio_bot::prowlarr::Release {
            title: (*t).to_owned(),
            guid: format!("guid-{t}"),
            indexer_id: 1,
            indexer: "TestIndexer".to_owned(),
            size: 1,
            seeders: Some(1),
            leechers: None,
            download_url: None,
            magnet_url: None,
            protocol: "torrent".to_owned(),
        })
        .collect()
}

#[test]
fn a_search_shows_at_most_the_configured_results() {
    let shown = shown_results(found(&["a", "b", "c"]), 2).expect("something to show");
    let titles: Vec<&str> = shown.iter().map(|r| r.title.as_str()).collect();
    assert_eq!(titles, ["a", "b"]);
    assert_eq!(shown_results(found(&["a"]), 25).map(|v| v.len()), Some(1));
}

#[test]
fn a_search_with_nothing_to_show_offers_a_watch() {
    assert!(shown_results(found(&[]), 25).is_none());
    assert!(shown_results(found(&["a"]), 0).is_none());
}


#[test]
fn a_successful_download_closes_the_watches_for_its_words() {
    let mut state = state_with(&[(1, Some(1), "Dune"), (1, Some(1), "neuromancer"), (2, Some(1), "dune")]);
    let picked = &found(&["Dune (1965)"])[0];
    let outcome: Result<String, String> = Ok("/data/ebooks".to_owned());
    let (embed, note) = download_reply(&mut state, 1, "dune", picked, "ebooks", &outcome, Lang::En);
    assert_eq!(note, "Removed **Dune** from your watchlist.");
    assert_eq!(embed.title, Lang::En.added_title());
    assert_eq!(embed.fields[1].value, "`/data/ebooks`");
    let left: Vec<(u64, &str)> = state.entries().iter().map(|w| (w.user_id, w.query.as_str())).collect();
    assert_eq!(left, [(1, "neuromancer"), (2, "dune")]);
}

#[test]
fn a_failed_download_closes_nothing() {
    let mut state = state_with(&[(1, Some(1), "dune")]);
    let picked = &found(&["Dune (1965)"])[0];
    let outcome: Result<String, String> = Err("qBittorrent is unreachable".to_owned());
    let (embed, note) = download_reply(&mut state, 1, "dune", picked, "ebooks", &outcome, Lang::Fr);
    assert_eq!(note, "");
    assert_eq!(embed.title, Lang::Fr.failed_title());
    assert!(embed.description.contains("qBittorrent is unreachable"));
    assert_eq!(state.len(), 1);
}

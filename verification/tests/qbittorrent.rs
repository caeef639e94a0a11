use biblio_bot::qbittorrent::names_are_distinct;
use biblio_bot::qbittorrent::save_path_for;
use biblio_bot::qbittorrent::refusal;
use biblio_bot::prowlarr::Download;
use biblio_bot::qbittorrent::{add_form, add_succeeded, category_save_path, login_accepted, Category, FormField};

/// The `success_count` a 5.x JSON answer reports, as the application reads it.
fn reported(body: &str) -> Option<u32> {
    let value: serde_json::Value = serde_json::from_str(body.trim()).ok()?;
    let object = value.as_object()?;
    match object.get("success_count") {
        None => Some(0),
        Some(n) => n.as_u64().and_then(|n| u32::try_from(n).ok()),
    }
}

fn succeeded(body: &str) -> bool {
    add_succeeded(body, reported(body))
}

#[test]
fn add_succeeded_accepts_both_api_generations() {
    assert!(succeeded("Ok."));
    assert!(succeeded(""));
    assert!(succeeded(
        r#"{"added_torrent_ids":["abc"],"success_count":1}"#
    ));
    assert!(!succeeded(r#"{"success_count":0,"failure_count":1}"#));
    assert!(!succeeded("Fails."));
}

#[test]
fn a_blank_or_padded_answer_counts_as_accepted() {
    assert!(add_succeeded("  \n", None));
    assert!(add_succeeded("  Ok.  ", None));
    assert!(!add_succeeded("Refused", Some(0)));
}

#[test]
fn login_needs_an_ok() {
    assert!(login_accepted("Ok."));
    assert!(!login_accepted("Fails."));
}

fn categories() -> Vec<(String, Category)> {
    vec![(
        "ebooks".to_owned(),
        Category {
            name: "ebooks".to_owned(),
            save_path: "/data/ebooks".to_owned(),
        },
    )]
}

#[test]
fn add_resolves_the_category_save_path() {
    assert_eq!(category_save_path(&categories(), "ebooks"), "/data/ebooks");
}

#[test]
fn add_falls_back_to_no_path_for_an_unknown_category() {
    assert_eq!(category_save_path(&categories(), "missing"), "");
}

fn text(name: &str, value: &str) -> FormField {
    FormField::Text(name.to_owned(), value.to_owned())
}

#[test]
fn add_sends_the_save_path_and_the_magnet() {
    let form = add_form(&Download::Magnet("magnet:?xt=urn:btih:abc".into()), "ebooks", "/data/ebooks", false);
    assert_eq!(
        form,
        vec![
            text("category", "ebooks"),
            text("savepath", "/data/ebooks"),
            text("urls", "magnet:?xt=urn:btih:abc"),
        ]
    );
}

#[test]
fn add_omits_the_save_path_when_the_category_has_none() {
    let categories = vec![(
        "ebooks".to_owned(),
        Category { name: "ebooks".to_owned(), save_path: String::new() },
    )];
    let saved = save_path_for(None, &categories, "ebooks");
    assert_eq!(saved, "");
    let form = add_form(&Download::Magnet("magnet:?x".into()), "ebooks", &saved, false);
    assert!(!form.iter().any(|f| matches!(f, FormField::Text(n, _) if n == "savepath")));
}

#[test]
fn add_sends_both_pause_spellings() {
    let form = add_form(&Download::Magnet("magnet:?x".into()), "ebooks", "/data", true);
    assert!(form.contains(&text("paused", "true")));
    assert!(form.contains(&text("stopped", "true")));
}

#[test]
fn add_uploads_a_torrent_file() {
    let form = add_form(&Download::Torrent(b"d8:announce".to_vec()), "ebooks", "/data", false);
    assert_eq!(form.last(), Some(&FormField::Torrent(b"d8:announce".to_vec())));
}

#[test]
fn qbittorrent_the_base_url_keeps_no_trailing_slash() {
    assert_eq!(
        biblio_bot::config::strip_trailing_slash("http://qbit.test/"),
        "http://qbit.test"
    );
}

#[test]
fn a_given_save_path_wins_over_the_category_one() {
    let categories = vec![(
        "ebooks".to_owned(),
        Category { name: "ebooks".to_owned(), save_path: "/data/ebooks".to_owned() },
    )];
    assert_eq!(save_path_for(Some("/custom"), &categories, "ebooks"), "/custom");
    assert_eq!(save_path_for(None, &categories, "ebooks"), "/data/ebooks");
    assert_eq!(save_path_for(None, &categories, "missing"), "");
}

#[test]
fn only_a_403_asks_for_credentials() {
    assert_eq!(
        refusal(403),
        Some("qBittorrent refused the request (403): set QBIT_USER / QBIT_PASS")
    );
    assert_eq!(refusal(401), None);
    assert_eq!(refusal(200), None);
}


#[test]
fn categories_keyed_twice_are_noticed() {
    let entry = |name: &str| {
        (name.to_owned(), Category { name: name.to_owned(), save_path: String::new() })
    };
    assert!(names_are_distinct(&[]));
    assert!(names_are_distinct(&[entry("ebooks"), entry("audio")]));
    assert!(!names_are_distinct(&[entry("ebooks"), entry("audio"), entry("ebooks")]));
}

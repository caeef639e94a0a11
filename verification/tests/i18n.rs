use biblio_bot::i18n::Lang;

#[test]
fn english_is_the_default() {
    assert_eq!(Lang::default(), Lang::En);
}

#[test]
fn discord_locales_map_to_a_language() {
    assert_eq!(Lang::from_locale(Some("fr"), Lang::En), Lang::Fr);
    assert_eq!(Lang::from_locale(Some("en-US"), Lang::Fr), Lang::En);
    assert_eq!(Lang::from_locale(Some("en-GB"), Lang::Fr), Lang::En);
}

#[test]
fn an_untranslated_locale_falls_back_to_the_configured_default() {
    assert_eq!(Lang::from_locale(Some("de"), Lang::Fr), Lang::Fr);
    assert_eq!(Lang::from_locale(Some("ja"), Lang::En), Lang::En);
}

#[test]
fn a_missing_locale_falls_back_to_the_configured_default() {
    assert_eq!(Lang::from_locale(None, Lang::Fr), Lang::Fr);
    assert_eq!(Lang::from_locale(None, Lang::En), Lang::En);
}

#[test]
fn parsing_accepts_the_spellings_a_user_would_write() {
    for input in ["en", "EN", " en-US ", "english"] {
        assert_eq!(input.parse::<Lang>().unwrap(), Lang::En, "for {input}");
    }
    for input in ["fr", "FR", "fr-FR", "french", "français"] {
        assert_eq!(input.parse::<Lang>().unwrap(), Lang::Fr, "for {input}");
    }
}

#[test]
fn parsing_rejects_an_unsupported_language_and_says_which() {
    let error = "de".parse::<Lang>().unwrap_err();
    assert!(error.contains("de"), "got: {error}");
    assert!(error.contains("`en` or `fr`"), "got: {error}");
}

#[test]
fn a_language_renders_as_its_code() {
    assert_eq!(Lang::En.to_string(), "en");
    assert_eq!(Lang::Fr.to_string(), "fr");
}

#[test]
fn every_string_differs_between_the_two_languages() {
    // A translation that silently falls back to English would read as a bug
    // to a French user, and nothing else would catch it.
    let pairs: Vec<(String, String)> = vec![
        (Lang::En.no_results("q"), Lang::Fr.no_results("q")),
        (Lang::En.more_in_menu(3), Lang::Fr.more_in_menu(3)),
        (
            Lang::En.release_summary("1 kB", 4, "i"),
            Lang::Fr.release_summary("1 kB", 4, "i"),
        ),
        (
            Lang::En.menu_placeholder().into(),
            Lang::Fr.menu_placeholder().into(),
        ),
        (
            Lang::En.selection_timed_out().into(),
            Lang::Fr.selection_timed_out().into(),
        ),
        (
            Lang::En.invalid_selection().into(),
            Lang::Fr.invalid_selection().into(),
        ),
        (Lang::En.added_title().into(), Lang::Fr.added_title().into()),
        (
            Lang::En.failed_title().into(),
            Lang::Fr.failed_title().into(),
        ),
        (
            Lang::En.status_title().into(),
            Lang::Fr.status_title().into(),
        ),
        (
            Lang::En.field_category().into(),
            Lang::Fr.field_category().into(),
        ),
        (Lang::En.field_size().into(), Lang::Fr.field_size().into()),
        (
            Lang::En.default_folder().into(),
            Lang::Fr.default_folder().into(),
        ),
        (
            Lang::En.no_save_path().into(),
            Lang::Fr.no_save_path().into(),
        ),
        (
            Lang::En.category_missing("c"),
            Lang::Fr.category_missing("c"),
        ),
        (
            Lang::En.watch_button().into(),
            Lang::Fr.watch_button().into(),
        ),
        (
            Lang::En.watch_created("q", 4, 30),
            Lang::Fr.watch_created("q", 4, 30),
        ),
        (Lang::En.watch_already("q"), Lang::Fr.watch_already("q")),
        (Lang::En.watch_too_many(10), Lang::Fr.watch_too_many(10)),
        (Lang::En.watch_found("q"), Lang::Fr.watch_found("q")),
        (Lang::En.watch_fulfilled("q"), Lang::Fr.watch_fulfilled("q")),
        (
            Lang::En.watch_gave_up("q", 30),
            Lang::Fr.watch_gave_up("q", 30),
        ),
        (Lang::En.watch_stopped("q"), Lang::Fr.watch_stopped("q")),
        (
            Lang::En.watchlist_title().into(),
            Lang::Fr.watchlist_title().into(),
        ),
        (
            Lang::En.watchlist_empty().into(),
            Lang::Fr.watchlist_empty().into(),
        ),
        (
            Lang::En.watchlist_entry(3, 7),
            Lang::Fr.watchlist_entry(3, 7),
        ),
        (
            Lang::En.watchlist_waiting().into(),
            Lang::Fr.watchlist_waiting().into(),
        ),
        (
            Lang::En.watchlist_placeholder().into(),
            Lang::Fr.watchlist_placeholder().into(),
        ),
        (
            Lang::En.watchlist_admin_title().into(),
            Lang::Fr.watchlist_admin_title().into(),
        ),
        (
            Lang::En.watchlist_admin_empty().into(),
            Lang::Fr.watchlist_admin_empty().into(),
        ),
        (Lang::En.watchlist_owner(7), Lang::Fr.watchlist_owner(7)),
        (Lang::En.watchlist_more(3), Lang::Fr.watchlist_more(3)),
        (
            Lang::En.watch_stopped_for("q", 7),
            Lang::Fr.watch_stopped_for("q", 7),
        ),
    ];

    for (en, fr) in pairs {
        assert_ne!(en, fr, "this string was left untranslated: {en}");
    }
}

#[test]
fn interpolated_values_survive_translation() {
    let cases: Vec<(String, Vec<&str>)> = vec![
        (Lang::Fr.no_results("dune"), vec!["dune"]),
        (Lang::Fr.more_in_menu(7), vec!["7"]),
        (
            Lang::Fr.release_summary("930 kB", 40, "C411"),
            vec!["930 kB", "40", "C411"],
        ),
        (Lang::Fr.category_missing("ebooks"), vec!["ebooks"]),
        (
            Lang::Fr.watch_created("dune", 4, 30),
            vec!["dune", "4", "30"],
        ),
        (Lang::Fr.watch_already("dune"), vec!["dune"]),
        (Lang::Fr.watch_too_many(10), vec!["10"]),
        (Lang::Fr.watch_found("dune"), vec!["dune"]),
        (Lang::Fr.watch_fulfilled("dune"), vec!["dune"]),
        (Lang::Fr.watch_gave_up("dune", 30), vec!["dune", "30"]),
        (Lang::Fr.watch_stopped("dune"), vec!["dune"]),
        (Lang::Fr.watchlist_entry(3, 7), vec!["3", "7"]),
        (Lang::Fr.watchlist_owner(4242), vec!["4242"]),
        (Lang::Fr.watchlist_more(3), vec!["3"]),
        (Lang::Fr.watch_stopped_for("dune", 7), vec!["dune", "<@7>"]),
    ];

    for (rendered, expected) in cases {
        for value in expected {
            assert!(
                rendered.contains(value),
                "{value} is missing from: {rendered}"
            );
        }
    }
}

#[test]
fn destination_is_intentionally_identical_in_both_languages() {
    assert_eq!(Lang::En.field_destination(), Lang::Fr.field_destination());
}

#[test]
fn messages_read_exactly_as_written() {
    assert_eq!(Lang::En.no_results("dune"), "No result for **dune**.");
    assert_eq!(Lang::Fr.more_in_menu(3), "\n\n_…et 3 autre(s) dans le menu ci-dessous._");
    assert_eq!(
        Lang::En.watch_created("dune", 4, 30),
        "Watching **dune**. I will look 4 times a day and post here as soon as something turns up, or give up after 30 days."
    );
    assert_eq!(Lang::En.watchlist_entry(3, -2), "checked 3 times · -2 days left");
    assert_eq!(Lang::Fr.watch_stopped_for("dune", 7), "J'ai arrêté **dune** pour <@7>.");
    assert_eq!(Lang::En.watchlist_owner(u64::MAX), "owner 18446744073709551615");
}

#[test]
fn a_locale_is_matched_on_its_first_letters_only() {
    assert_eq!(Lang::from_locale(Some("french"), Lang::En), Lang::Fr);
    assert_eq!(Lang::from_locale(Some("FR"), Lang::En), Lang::En);
    assert_eq!(Lang::from_locale(Some(""), Lang::Fr), Lang::Fr);
}

#[test]
fn parsing_reports_the_normalised_name() {
    assert_eq!(
        " DE ".parse::<Lang>().unwrap_err(),
        "unsupported language: de (expected `en` or `fr`)"
    );
    assert!("FRANÇAIS".parse::<Lang>().is_err());
}

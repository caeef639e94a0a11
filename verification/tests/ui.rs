use biblio_bot::i18n::Lang;
use biblio_bot::prowlarr::Release;
use biblio_bot::qbittorrent::Category;
use biblio_bot::ui::{
    added_embed, days_left, destination_label, expired_embed, failed_embed, parse_selection,
    results_embed, select_options, status_embed, truncate, watch_button, watchlist_embed,
    watchlist_options, BLUE, GREEN, GREY, LABEL_MAX, RED,
};
use biblio_bot::watchlist::Watch;
use biblio_bot::SECONDS_PER_DAY;

const BOTH: [Lang; 2] = [Lang::En, Lang::Fr];

fn release(title: &str, size: u64, seeders: Option<u32>) -> Release {
    Release {
        title: title.to_owned(),
        guid: format!("guid-{title}"),
        indexer_id: 1,
        indexer: "TestIndexer".to_owned(),
        size,
        seeders,
        leechers: Some(1),
        download_url: Some("http://example.test/file.torrent".to_owned()),
        magnet_url: None,
        protocol: "torrent".to_owned(),
    }
}

#[test]
fn truncate_keeps_short_text_untouched() {
    assert_eq!(truncate("short", 10), "short");
}

#[test]
fn truncate_never_splits_a_multibyte_character() {
    assert_eq!(truncate("éééééé", 3), "éé…");
    assert_eq!(truncate("éééééé", 6), "éééééé");
    assert_eq!(truncate("abc", 1), "…");
}

#[test]
fn truncate_to_nothing_still_marks_the_cut() {
    assert_eq!(truncate("abc", 0), "…");
    assert_eq!(truncate("", 0), "");
}

#[test]
fn results_embed_lists_entries_with_size_and_seeders() {
    let results = [release("Dune", 930_000, Some(40))];
    for lang in BOTH {
        let value = results_embed("dune", &results, lang);
        let description = value.description.as_str();

        assert_eq!(value.title, "📚 dune");
        assert!(description.contains("Dune"));
        assert!(description.contains("930 kB"), "got: {description}");
        assert!(description.contains("40"));
        assert_eq!(value.colour, BLUE);
    }
}

#[test]
fn results_embed_writes_each_entry_on_two_lines() {
    let results = [release("Dune", 930_000, Some(40))];
    assert_eq!(
        results_embed("dune", &results, Lang::En).description,
        "` 1` **Dune**\n     930 kB · 🌱 40 · TestIndexer"
    );
}

#[test]
fn results_embed_announces_the_overflow_in_each_language() {
    let results: Vec<Release> = (0..13)
        .map(|i| release(&format!("Book {i}"), 1000, Some(1)))
        .collect();

    let english = results_embed("books", &results, Lang::En);
    assert!(english.description.contains("and 3 more"));
    assert!(english.description.contains("`10` **Book 9**"));

    let french = results_embed("books", &results, Lang::Fr);
    let description = french.description.as_str();
    assert!(description.contains("et 3 autre"), "got: {description}");
    assert!(!description.contains("Book 12"));
}

#[test]
fn results_embed_stays_quiet_when_nothing_overflows() {
    let results = [release("Only one", 1000, Some(1))];
    for lang in BOTH {
        let value = results_embed("q", &results, lang);
        let description = value.description.as_str();
        assert!(!description.contains("menu"), "got: {description}");
    }
}

#[test]
fn missing_seeder_counts_render_as_zero() {
    let results = [release("Usenet release", 1000, None)];
    let value = results_embed("q", &results, Lang::En);
    assert!(value.description.contains("🌱 0"));
}

#[test]
fn expired_embed_only_changes_the_colour() {
    let results = [release("Dune", 1000, Some(1))];
    for lang in BOTH {
        let fresh = results_embed("q", &results, lang);
        let expired = expired_embed("q", &results, lang);

        assert_eq!(fresh.description, expired.description);
        assert_eq!(expired.colour, GREY);
    }
}

#[test]
fn select_options_index_every_result() {
    let results: Vec<Release> = (0..3)
        .map(|i| release(&format!("Book {i}"), 2048, Some(7)))
        .collect();
    let value = select_options(&results, Lang::En);

    assert_eq!(value.len(), 3);
    assert_eq!(value[0].value, "0");
    assert_eq!(value[2].value, "2");
    assert!(value[1].description.contains("7 seeders"));
}

#[test]
fn select_option_summaries_are_translated() {
    let results = [release("Dune", 2048, Some(7))];
    let value = select_options(&results, Lang::Fr);
    assert!(value[0].description.contains("7 sources"));
}

#[test]
fn select_options_respect_the_discord_length_limit() {
    let results = [release(&"z".repeat(250), 1000, Some(1))];
    for lang in BOTH {
        let value = select_options(&results, lang);
        let label = value[0].label.as_str();

        assert_eq!(label.chars().count(), LABEL_MAX);
        assert!(label.ends_with('…'));
    }
}

#[test]
fn parse_selection_resolves_the_picked_index() {
    let results = [release("first", 1, Some(1)), release("second", 1, Some(1))];
    assert_eq!(
        parse_selection(&["1".to_owned()], &results).unwrap().title,
        "second"
    );
}

#[test]
fn parse_selection_rejects_anything_unexpected() {
    let results = [release("first", 1, Some(1))];
    assert!(parse_selection(&[], &results).is_none());
    assert!(parse_selection(&["not a number".to_owned()], &results).is_none());
    assert!(parse_selection(&["9".to_owned()], &results).is_none());
}

#[test]
fn added_embed_reports_category_and_destination() {
    let value = added_embed(
        &release("Dune", 930_000, Some(40)),
        "ebooks",
        "/data/ebooks",
        Lang::En,
    );

    assert_eq!(value.colour, GREEN);
    assert_eq!(value.title, "📥 Sent to qBittorrent");
    assert_eq!(value.fields[0].name, "Category");
    assert_eq!(value.fields[0].value, "`ebooks`");
    assert_eq!(value.fields[1].value, "`/data/ebooks`");
}

#[test]
fn added_embed_is_translated() {
    let value = added_embed(
        &release("Dune", 930_000, Some(40)),
        "ebooks",
        "/data/ebooks",
        Lang::Fr,
    );

    assert_eq!(value.title, "📥 Envoyé à qBittorrent");
    assert_eq!(value.fields[0].name, "Catégorie");
    assert_eq!(value.fields[2].name, "Taille");
}

#[test]
fn added_embed_says_so_when_no_path_was_resolved() {
    assert_eq!(
        added_embed(&release("Dune", 1000, Some(1)), "ebooks", "", Lang::En).fields[1].value,
        "qBittorrent default folder"
    );
    assert_eq!(
        added_embed(&release("Dune", 1000, Some(1)), "ebooks", "", Lang::Fr).fields[1].value,
        "dossier par défaut de qBittorrent"
    );
}

#[test]
fn failed_embed_surfaces_the_error_in_each_language() {
    for lang in BOTH {
        let value = failed_embed(&release("Dune", 1000, Some(1)), "connection refused", lang);

        assert_eq!(value.colour, RED);
        assert_eq!(value.title, lang.failed_title());
        assert!(value.description.contains("connection refused"));
    }
}

fn category(name: &str, save_path: &str) -> Vec<(String, Category)> {
    vec![(
        name.to_owned(),
        Category {
            name: name.to_owned(),
            save_path: save_path.to_owned(),
        },
    )]
}

#[test]
fn destination_label_reports_a_configured_path_regardless_of_language() {
    let cats = category("ebooks", "/data/ebooks");
    for lang in BOTH {
        assert_eq!(destination_label(&cats, "ebooks", lang), "`/data/ebooks`");
    }
}

#[test]
fn destination_label_warns_when_the_category_has_no_path() {
    let cats = category("ebooks", "");
    assert!(destination_label(&cats, "ebooks", Lang::En).contains("no save path"));
    assert!(destination_label(&cats, "ebooks", Lang::Fr).contains("aucun chemin"));
}

#[test]
fn destination_label_warns_when_the_category_is_missing() {
    assert!(destination_label(&[], "ebooks", Lang::En).contains("does not exist"));
    assert!(destination_label(&[], "ebooks", Lang::Fr).contains("absente"));
}

fn watch(query: &str, created_at: i64, checks: u32) -> Watch {
    Watch {
        id: 1,
        user_id: 42,
        channel_id: 100,
        guild_id: None,
        query: query.to_owned(),
        created_at,
        last_checked_at: created_at,
        checks,
        lang: Lang::En,
        notified_at: None,
    }
}

#[test]
fn the_watch_button_carries_the_custom_id_and_is_translated() {
    let button = watch_button("watch:7", Lang::Fr);

    assert_eq!(button.custom_id, "watch:7");
    assert_eq!(button.label, Lang::Fr.watch_button());
    assert_eq!(button.emoji, '🔔');
}

#[test]
fn days_left_rounds_up_so_it_never_reads_as_zero_too_early() {
    let w = watch("dune", 0, 0);
    let max_age = 30 * SECONDS_PER_DAY;

    assert_eq!(days_left(&w, 0, max_age), 30);
    assert_eq!(days_left(&w, 29 * SECONDS_PER_DAY, max_age), 1);
    // Still twelve hours to go: that is one day, not none.
    assert_eq!(days_left(&w, 30 * SECONDS_PER_DAY - 43_200, max_age), 1);
}

#[test]
fn days_left_never_goes_negative() {
    let w = watch("dune", 0, 0);
    assert_eq!(
        days_left(&w, 999 * SECONDS_PER_DAY, 30 * SECONDS_PER_DAY),
        0
    );
}

#[test]
fn an_empty_watchlist_explains_how_to_create_one() {
    let value = watchlist_embed(&[], 0, SECONDS_PER_DAY, Lang::En);

    assert_eq!(value.colour, GREY);
    assert!(value.description.contains("no standing search"));
}

#[test]
fn a_watchlist_lists_each_query_with_its_progress() {
    let watches = [watch("dune", 0, 3), watch("hyperion", 0, 1)];
    let value = watchlist_embed(&watches, 0, 30 * SECONDS_PER_DAY, Lang::En);
    let description = value.description.as_str();

    assert_eq!(value.colour, BLUE);
    assert!(description.contains("dune"));
    assert!(description.contains("hyperion"));
    assert!(
        description.contains("checked 3 times"),
        "got: {description}"
    );
    assert!(description.contains("30 days left"));
}

#[test]
fn a_found_watch_is_marked_as_waiting_for_the_download() {
    let mut found = watch("dune", 0, 3);
    found.notified_at = Some(100);
    let value = watchlist_embed(&[found], 0, 30 * SECONDS_PER_DAY, Lang::En);
    let description = value.description.as_str();

    assert!(
        description.contains("waiting for your download"),
        "got: {description}"
    );
    assert!(!description.contains("checked 3 times"));
}

#[test]
fn the_watchlist_is_translated() {
    let watches = [watch("dune", 0, 3)];
    let value = watchlist_embed(&watches, 0, 30 * SECONDS_PER_DAY, Lang::Fr);

    assert_eq!(value.title, Lang::Fr.watchlist_title());
    assert!(value.description.contains("vérifiée 3 fois"));
}

#[test]
fn watchlist_options_are_keyed_by_watch_id() {
    let mut second = watch("hyperion", 0, 0);
    second.id = 9;
    let value = watchlist_options(&[watch("dune", 0, 0), second], Lang::En);

    assert_eq!(value[0].value, "1");
    assert_eq!(value[1].value, "9");
    assert_eq!(value[1].label, "hyperion");
}

#[test]
fn watchlist_options_respect_the_discord_length_limit() {
    let value = watchlist_options(&[watch(&"z".repeat(250), 0, 0)], Lang::En);
    assert_eq!(value[0].label.chars().count(), LABEL_MAX);
}

#[test]
fn status_embed_is_green_only_when_both_services_answer() {
    let value = status_embed(
        &Ok("2.5.2".to_owned()),
        &Ok("v5.2.3".to_owned()),
        "ebooks",
        "`/data/ebooks`",
        Lang::En,
    );

    assert_eq!(value.colour, GREEN);
    assert_eq!(value.title, "Service status");
    assert!(value.description.contains("2.5.2"));
}

#[test]
fn status_embed_is_translated() {
    let value = status_embed(
        &Ok("2.5.2".to_owned()),
        &Ok("v5.2.3".to_owned()),
        "ebooks",
        "`/data/ebooks`",
        Lang::Fr,
    );
    assert_eq!(value.title, "État des services");
}

#[test]
fn status_embed_turns_red_and_shows_why() {
    let value = status_embed(
        &Ok("2.5.2".to_owned()),
        &Err("qBittorrent unreachable".to_owned()),
        "ebooks",
        "`/data/ebooks`",
        Lang::En,
    );

    assert_eq!(value.colour, RED);
    assert!(value.description.contains("qBittorrent unreachable"));
}

#[test]
fn status_lines_trim_the_reported_version() {
    let value = status_embed(
        &Ok(" v5.2.3\n".to_owned()),
        &Err("down".to_owned()),
        "ebooks",
        "x",
        Lang::En,
    );
    assert_eq!(
        value.description,
        "✅ **Prowlarr** — v5.2.3\n❌ **qBittorrent** — down"
    );
}

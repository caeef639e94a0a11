use biblio_bot::config::{Config, ConfigError};
use biblio_bot::i18n::Lang;
use std::collections::HashMap;

fn minimal() -> HashMap<&'static str, &'static str> {
    HashMap::from([
        ("DISCORD_TOKEN", "token"),
        ("PROWLARR_URL", "http://prowlarr:9696"),
        ("PROWLARR_API_KEY", "key"),
        ("QBIT_URL", "http://qbit:8081"),
    ])
}

fn build(vars: &HashMap<&'static str, &'static str>) -> Result<Config, ConfigError> {
    let pairs: Vec<(String, String)> = vars
        .iter()
        .map(|(k, v)| ((*k).to_owned(), (*v).to_owned()))
        .collect();
    Config::from_lookup(&pairs)
}

#[test]
fn defaults_cover_everything_optional() {
    let config = build(&minimal()).unwrap();

    assert_eq!(config.qbit_category, "ebooks");
    assert_eq!(config.search_categories, vec![7020]);
    assert_eq!(config.max_results, 25);
    assert_eq!(config.default_locale, Lang::En);
    assert_eq!(config.watch_checks_per_day, 4);
    assert_eq!(config.watch_max_days, 30);
    assert_eq!(config.watch_max_per_user, 10);
    assert_eq!(config.watchlist_path, "data/watchlist.json");
    assert_eq!(config.guild_id, None);
    assert_eq!(config.qbit_user, None);
    assert_eq!(config.download_check_interval_secs, 300);
    assert_eq!(config.downloads_path, "data/downloads.json");
}

#[test]
fn every_required_variable_is_enforced() {
    for key in [
        "DISCORD_TOKEN",
        "PROWLARR_URL",
        "PROWLARR_API_KEY",
        "QBIT_URL",
    ] {
        let mut vars = minimal();
        vars.remove(key);
        let error = build(&vars).unwrap_err().to_string();
        assert!(
            error.contains(key),
            "{key} should be reported, got: {error}"
        );
    }
}

#[test]
fn blank_values_count_as_missing() {
    let mut vars = minimal();
    vars.insert("DISCORD_TOKEN", "   ");
    assert!(
        build(&vars)
            .unwrap_err()
            .to_string()
            .contains("DISCORD_TOKEN")
    );
}

#[test]
fn surrounding_whitespace_is_trimmed() {
    let mut vars = minimal();
    vars.insert("PROWLARR_API_KEY", "  key  ");
    assert_eq!(build(&vars).unwrap().prowlarr_api_key, "key");
}

#[test]
fn trailing_slashes_are_stripped_so_paths_do_not_double_up() {
    let mut vars = minimal();
    vars.insert("PROWLARR_URL", "http://prowlarr:9696/");
    vars.insert("QBIT_URL", "http://qbit:8081///");

    let config = build(&vars).unwrap();
    assert_eq!(config.prowlarr_url, "http://prowlarr:9696");
    assert_eq!(config.qbit_url, "http://qbit:8081");
}

#[test]
fn guild_id_must_be_numeric() {
    let mut vars = minimal();
    vars.insert("DISCORD_GUILD_ID", "not-an-id");
    assert!(build(&vars).unwrap_err().to_string().contains("numeric id"));

    vars.insert("DISCORD_GUILD_ID", "1234567890");
    assert_eq!(build(&vars).unwrap().guild_id, Some(1_234_567_890));
}

#[test]
fn categories_parse_from_a_comma_separated_list() {
    let mut vars = minimal();
    vars.insert("SEARCH_CATEGORIES", "7020, 7040 ,3030");
    assert_eq!(
        build(&vars).unwrap().search_categories,
        vec![7020, 7040, 3030]
    );
}

#[test]
fn categories_reject_a_non_numeric_entry() {
    let mut vars = minimal();
    vars.insert("SEARCH_CATEGORIES", "7020,ebook");
    assert!(
        build(&vars)
            .unwrap_err()
            .to_string()
            .contains("invalid category: ebook")
    );
}

#[test]
fn categories_reject_a_list_of_separators_only() {
    let mut vars = minimal();
    vars.insert("SEARCH_CATEGORIES", " , , ");
    assert!(
        build(&vars)
            .unwrap_err()
            .to_string()
            .contains("lists no category")
    );
}

#[test]
fn max_results_must_be_an_integer() {
    let mut vars = minimal();
    vars.insert("MAX_RESULTS", "many");
    assert!(
        build(&vars)
            .unwrap_err()
            .to_string()
            .contains("must be an integer")
    );
}

#[test]
fn max_results_is_bounded_by_the_discord_menu_limit() {
    let mut vars = minimal();
    for invalid in ["0", "26"] {
        vars.insert("MAX_RESULTS", invalid);
        assert!(
            build(&vars)
                .unwrap_err()
                .to_string()
                .contains("between 1 and 25")
        );
    }
    vars.insert("MAX_RESULTS", "10");
    assert_eq!(build(&vars).unwrap().max_results, 10);
}

#[test]
fn the_default_locale_can_be_switched_to_french() {
    let mut vars = minimal();
    vars.insert("DEFAULT_LOCALE", "fr");
    assert_eq!(build(&vars).unwrap().default_locale, Lang::Fr);
}

#[test]
fn an_unsupported_default_locale_is_rejected_by_name() {
    let mut vars = minimal();
    vars.insert("DEFAULT_LOCALE", "de");
    let error = build(&vars).unwrap_err().to_string();
    assert!(error.contains("DEFAULT_LOCALE"), "got: {error}");
    assert!(error.contains("de"), "got: {error}");
}

#[test]
fn the_summary_reports_what_the_bot_will_talk_to() {
    let summary = build(&minimal()).unwrap().summary();

    assert!(
        summary.contains("prowlarr=http://prowlarr:9696"),
        "got: {summary}"
    );
    assert!(summary.contains("qbit=http://qbit:8081"));
    assert!(summary.contains("category=ebooks"));
    assert!(summary.contains("watch=4/day"));
    assert!(summary.contains("guild=global"));
    assert!(summary.contains("download_check=300s"));
    assert!(summary.contains("downloads=data/downloads.json"));
}

#[test]
fn the_summary_never_echoes_a_secret() {
    let mut vars = minimal();
    vars.insert("DISCORD_TOKEN", "TOKEN-must-not-leak");
    vars.insert("PROWLARR_API_KEY", "APIKEY-must-not-leak");
    vars.insert("QBIT_USER", "admin");
    vars.insert("QBIT_PASS", "PASSWORD-must-not-leak");

    let summary = build(&vars).unwrap().summary();
    for secret in [
        "TOKEN-must-not-leak",
        "APIKEY-must-not-leak",
        "PASSWORD-must-not-leak",
    ] {
        assert!(!summary.contains(secret), "{secret} leaked into: {summary}");
    }
    assert!(summary.contains("qbit_auth=credentials"));
}

#[test]
fn the_summary_says_when_no_credentials_are_set() {
    assert!(
        build(&minimal())
            .unwrap()
            .summary()
            .contains("qbit_auth=none")
    );
}

#[test]
fn the_summary_names_the_guild_when_scoped() {
    let mut vars = minimal();
    vars.insert("DISCORD_GUILD_ID", "655831756498403334");
    assert!(
        build(&vars)
            .unwrap()
            .summary()
            .contains("guild=655831756498403334")
    );
}

#[test]
fn the_check_interval_divides_the_day() {
    let mut vars = minimal();
    vars.insert("WATCH_CHECKS_PER_DAY", "4");
    assert_eq!(build(&vars).unwrap().watch_interval_secs(), 6 * 3_600);

    vars.insert("WATCH_CHECKS_PER_DAY", "24");
    assert_eq!(build(&vars).unwrap().watch_interval_secs(), 3_600);

    vars.insert("WATCH_CHECKS_PER_DAY", "1");
    assert_eq!(build(&vars).unwrap().watch_interval_secs(), 86_400);
}

#[test]
fn the_maximum_age_is_expressed_in_seconds() {
    let mut vars = minimal();
    vars.insert("WATCH_MAX_DAYS", "7");
    assert_eq!(build(&vars).unwrap().watch_max_age_secs(), 7 * 86_400);
}

#[test]
fn watch_settings_are_bounded() {
    let cases = [
        ("WATCH_CHECKS_PER_DAY", ["0", "25"]),
        ("WATCH_MAX_DAYS", ["0", "366"]),
        ("WATCH_MAX_PER_USER", ["0", "101"]),
        ("DOWNLOAD_CHECK_INTERVAL_SECS", ["59", "3601"]),
    ];
    for (key, invalid) in cases {
        for value in invalid {
            let mut vars = minimal();
            vars.insert(key, value);
            let error = build(&vars).unwrap_err().to_string();
            assert!(
                error.contains(key),
                "{key}={value} should be rejected, got: {error}"
            );
        }
    }
}

#[test]
fn a_non_numeric_watch_setting_is_rejected() {
    let mut vars = minimal();
    vars.insert("WATCH_CHECKS_PER_DAY", "often");
    assert!(
        build(&vars)
            .unwrap_err()
            .to_string()
            .contains("must be an integer")
    );
}

#[test]
fn the_watchlist_path_can_be_moved() {
    let mut vars = minimal();
    vars.insert("WATCHLIST_PATH", "/var/lib/biblio/watches.json");
    assert_eq!(
        build(&vars).unwrap().watchlist_path,
        "/var/lib/biblio/watches.json"
    );
}

#[test]
fn the_downloads_path_can_be_moved() {
    let mut vars = minimal();
    vars.insert("DOWNLOADS_PATH", "/var/lib/biblio/downloads.json");
    assert_eq!(
        build(&vars).unwrap().downloads_path,
        "/var/lib/biblio/downloads.json"
    );
}

#[test]
fn qbittorrent_credentials_are_optional_but_read_when_present() {
    let mut vars = minimal();
    vars.insert("QBIT_USER", "admin");
    vars.insert("QBIT_PASS", "secret");

    let config = build(&vars).unwrap();
    assert_eq!(config.qbit_user.as_deref(), Some("admin"));
    assert_eq!(config.qbit_pass.as_deref(), Some("secret"));
}

#[test]
fn the_summary_lists_categories_and_everything_else_in_order() {
    let mut vars = minimal();
    vars.insert("SEARCH_CATEGORIES", "7020,7040");
    vars.insert("DEFAULT_LOCALE", "FR");
    assert_eq!(
        build(&vars).unwrap().summary(),
        "prowlarr=http://prowlarr:9696 qbit=http://qbit:8081 \
         qbit_auth=none (relying on qBittorrent's subnet bypass) category=ebooks \
         categories=[7020, 7040] locale=fr guild=global max_results=25 watch=4/day \
         max_days=30 max_per_user=10 watchlist=data/watchlist.json download_check=300s \
         downloads=data/downloads.json"
    );
}

#[test]
fn every_configuration_error_has_its_exact_message() {
    let mut vars = minimal();
    vars.insert("WATCH_MAX_DAYS", "366");
    assert_eq!(
        build(&vars).unwrap_err().to_string(),
        "WATCH_MAX_DAYS must be between 1 and 365"
    );
    let mut vars = minimal();
    vars.insert("MAX_RESULTS", "26");
    assert_eq!(
        build(&vars).unwrap_err().to_string(),
        "MAX_RESULTS must be between 1 and 25 (Discord select menu limit)"
    );
    let mut vars = minimal();
    vars.remove("QBIT_URL");
    assert_eq!(
        build(&vars).unwrap_err().to_string(),
        "missing environment variable: QBIT_URL"
    );
    let mut vars = minimal();
    vars.insert("DEFAULT_LOCALE", " DE ");
    assert_eq!(
        build(&vars).unwrap_err().to_string(),
        "DEFAULT_LOCALE: unsupported language: de (expected `en` or `fr`)"
    );
}

#[test]
fn the_first_problem_in_reading_order_is_reported() {
    let mut vars = minimal();
    vars.insert("MAX_RESULTS", "0");
    vars.remove("DISCORD_TOKEN");
    assert!(build(&vars).unwrap_err().to_string().contains("MAX_RESULTS"));
}

#[test]
fn numbers_accept_a_plus_sign_but_not_a_minus() {
    let mut vars = minimal();
    vars.insert("WATCH_MAX_DAYS", "+7");
    assert_eq!(build(&vars).unwrap().watch_max_days, 7);
    vars.insert("WATCH_MAX_DAYS", "-7");
    assert!(build(&vars).unwrap_err().to_string().contains("must be an integer"));
    vars.insert("WATCH_MAX_DAYS", "99999999999999999999999");
    assert!(build(&vars).unwrap_err().to_string().contains("must be an integer"));
}

//! The bot's settings, read from environment variables and checked once at
//! startup.

use crate::i18n::{lang_named, normalised_name, Lang};
use crate::text::{
    chars_of, contains, decimal, lemma_decimal_reads_back, str_eq, parse_decimal, parse_unsigned, push_decimal, push_signed_decimal,
    signed_decimal, trim, trim_chars, trim_end_char, trim_end_char_str,
};
use crate::SECONDS_PER_DAY;
use vstd::prelude::*;
use vstd::string::*;

verus! {

/// Discord refuses select menus with more options than this.
pub const DISCORD_MENU_MAX: usize = 25;

/// Newznab's Books/EBook category.
pub const BOOKS_EBOOK: u32 = 7020;

/// An environment variable the bot reads.
#[derive(Debug, Clone, Copy, PartialEq, Eq, Structural)]
pub enum Setting {
    DiscordToken,
    DiscordGuildId,
    ProwlarrUrl,
    ProwlarrApiKey,
    QbitUrl,
    QbitUser,
    QbitPass,
    QbitCategory,
    SearchCategories,
    MaxResults,
    DefaultLocale,
    WatchChecksPerDay,
    WatchMaxDays,
    WatchMaxPerUser,
    WatchlistPath,
    DownloadCheckIntervalSecs,
    DownloadsPath,
}

/// The name of the variable that holds a setting.
pub open spec fn setting_name(s: Setting) -> Seq<char> {
    match s {
        Setting::DiscordToken => "DISCORD_TOKEN"@,
        Setting::DiscordGuildId => "DISCORD_GUILD_ID"@,
        Setting::ProwlarrUrl => "PROWLARR_URL"@,
        Setting::ProwlarrApiKey => "PROWLARR_API_KEY"@,
        Setting::QbitUrl => "QBIT_URL"@,
        Setting::QbitUser => "QBIT_USER"@,
        Setting::QbitPass => "QBIT_PASS"@,
        Setting::QbitCategory => "QBIT_CATEGORY"@,
        Setting::SearchCategories => "SEARCH_CATEGORIES"@,
        Setting::MaxResults => "MAX_RESULTS"@,
        Setting::DefaultLocale => "DEFAULT_LOCALE"@,
        Setting::WatchChecksPerDay => "WATCH_CHECKS_PER_DAY"@,
        Setting::WatchMaxDays => "WATCH_MAX_DAYS"@,
        Setting::WatchMaxPerUser => "WATCH_MAX_PER_USER"@,
        Setting::WatchlistPath => "WATCHLIST_PATH"@,
        Setting::DownloadCheckIntervalSecs => "DOWNLOAD_CHECK_INTERVAL_SECS"@,
        Setting::DownloadsPath => "DOWNLOADS_PATH"@,
    }
}

impl Setting {
    pub fn name(self) -> (n: &'static str)
        ensures
            n@ == setting_name(self),
    {
        match self {
            Setting::DiscordToken => "DISCORD_TOKEN",
            Setting::DiscordGuildId => "DISCORD_GUILD_ID",
            Setting::ProwlarrUrl => "PROWLARR_URL",
            Setting::ProwlarrApiKey => "PROWLARR_API_KEY",
            Setting::QbitUrl => "QBIT_URL",
            Setting::QbitUser => "QBIT_USER",
            Setting::QbitPass => "QBIT_PASS",
            Setting::QbitCategory => "QBIT_CATEGORY",
            Setting::SearchCategories => "SEARCH_CATEGORIES",
            Setting::MaxResults => "MAX_RESULTS",
            Setting::DefaultLocale => "DEFAULT_LOCALE",
            Setting::WatchChecksPerDay => "WATCH_CHECKS_PER_DAY",
            Setting::WatchMaxDays => "WATCH_MAX_DAYS",
            Setting::WatchMaxPerUser => "WATCH_MAX_PER_USER",
            Setting::WatchlistPath => "WATCHLIST_PATH",
            Setting::DownloadCheckIntervalSecs => "DOWNLOAD_CHECK_INTERVAL_SECS",
            Setting::DownloadsPath => "DOWNLOADS_PATH",
        }
    }
}

/// Why the settings were refused.
#[derive(Debug, Clone, PartialEq, Eq)]
pub enum ConfigError {
    /// A required variable is absent or blank.
    Missing(Setting),
    /// A numeric variable does not hold an integer.
    NotAnInteger(Setting),
    /// A numeric variable is outside the range the bot accepts.
    OutOfRange(Setting),
    /// `DISCORD_GUILD_ID` is not a number.
    GuildIdNotNumeric,
    /// One entry of `SEARCH_CATEGORIES` is not a number.
    InvalidCategory(String),
    /// `SEARCH_CATEGORIES` is set but holds only separators.
    NoCategory,
    /// `DEFAULT_LOCALE` names no supported language; holds the reason.
    UnsupportedLocale(String),
}

/// A [`ConfigError`] with its text as characters.
pub enum ConfigFault {
    Missing(Setting),
    NotAnInteger(Setting),
    OutOfRange(Setting),
    GuildIdNotNumeric,
    InvalidCategory(Seq<char>),
    NoCategory,
    UnsupportedLocale(Seq<char>),
}

impl View for ConfigError {
    type V = ConfigFault;

    open spec fn view(&self) -> ConfigFault {
        match self {
            ConfigError::Missing(s) => ConfigFault::Missing(*s),
            ConfigError::NotAnInteger(s) => ConfigFault::NotAnInteger(*s),
            ConfigError::OutOfRange(s) => ConfigFault::OutOfRange(*s),
            ConfigError::GuildIdNotNumeric => ConfigFault::GuildIdNotNumeric,
            ConfigError::InvalidCategory(c) => ConfigFault::InvalidCategory(c@),
            ConfigError::NoCategory => ConfigFault::NoCategory,
            ConfigError::UnsupportedLocale(e) => ConfigFault::UnsupportedLocale(e@),
        }
    }
}

/// The smallest, default and largest value of each bounded setting.
pub open spec fn bounds(s: Setting) -> (nat, nat, nat) {
    match s {
        Setting::WatchChecksPerDay => (1, 4, 24),
        Setting::WatchMaxDays => (1, 30, 365),
        Setting::WatchMaxPerUser => (1, 10, 100),
        Setting::DownloadCheckIntervalSecs => (60, 300, 3600),
        _ => (1, 25, 25),
    }
}

/// The text of an error, as the operator reads it.
pub open spec fn fault_message(f: ConfigFault) -> Seq<char> {
    match f {
        ConfigFault::Missing(s) => "missing environment variable: "@ + setting_name(s),
        ConfigFault::NotAnInteger(s) => setting_name(s) + " must be an integer"@,
        ConfigFault::OutOfRange(s) => if s == Setting::MaxResults {
            "MAX_RESULTS must be between 1 and 25 (Discord select menu limit)"@
        } else {
            setting_name(s) + " must be between "@ + decimal(bounds(s).0) + " and "@ + decimal(
                bounds(s).2,
            )
        },
        ConfigFault::GuildIdNotNumeric => "DISCORD_GUILD_ID must be a numeric id"@,
        ConfigFault::InvalidCategory(c) => "invalid category: "@ + c,
        ConfigFault::NoCategory => "SEARCH_CATEGORIES is set but lists no category"@,
        ConfigFault::UnsupportedLocale(e) => "DEFAULT_LOCALE: "@ + e,
    }
}

impl ConfigError {
    /// The text of the error, as the operator reads it.
    pub fn to_string(&self) -> (m: String)
        ensures
            m@ == fault_message(self@),
    {
        match self {
            ConfigError::Missing(s) => {
                let mut m = String::from_str("missing environment variable: ");
                m.append(s.name());
                m
            },
            ConfigError::NotAnInteger(s) => {
                let mut m = String::from_str(s.name());
                m.append(" must be an integer");
                m
            },
            ConfigError::OutOfRange(s) => {
                if *s == Setting::MaxResults {
                    String::from_str(
                        "MAX_RESULTS must be between 1 and 25 (Discord select menu limit)",
                    )
                } else {
                    let (min, max): (u64, u64) = match s {
                        Setting::WatchChecksPerDay => (1, 24),
                        Setting::WatchMaxDays => (1, 365),
                        Setting::WatchMaxPerUser => (1, 100),
                        Setting::DownloadCheckIntervalSecs => (60, 3600),
                        _ => (1, 25),
                    };
                    let mut m = String::from_str(s.name());
                    m.append(" must be between ");
                    push_decimal(&mut m, min);
                    m.append(" and ");
                    push_decimal(&mut m, max);
                    m
                }
            },
            ConfigError::GuildIdNotNumeric => String::from_str(
                "DISCORD_GUILD_ID must be a numeric id",
            ),
            ConfigError::InvalidCategory(c) => {
                let mut m = String::from_str("invalid category: ");
                m.append(c.as_str());
                m
            },
            ConfigError::NoCategory => String::from_str(
                "SEARCH_CATEGORIES is set but lists no category",
            ),
            ConfigError::UnsupportedLocale(e) => {
                let mut m = String::from_str("DEFAULT_LOCALE: ");
                m.append(e.as_str());
                m
            },
        }
    }
}


/// The value the first pair named `key` holds, if any.
pub open spec fn env_lookup(vars: Seq<(Seq<char>, Seq<char>)>, key: Seq<char>) -> Option<
    Seq<char>,
>
    decreases vars.len(),
{
    if vars.len() == 0 {
        None
    } else if vars[0].0 == key {
        Some(vars[0].1)
    } else {
        env_lookup(vars.drop_first(), key)
    }
}

/// A setting's value, trimmed; a blank value counts as absent.
pub open spec fn setting_value(vars: Seq<(Seq<char>, Seq<char>)>, s: Setting) -> Option<
    Seq<char>,
> {
    match env_lookup(vars, setting_name(s)) {
        Some(v) => if trim(v).len() > 0 {
            Some(trim(v))
        } else {
            None
        },
        None => None,
    }
}

/// Reads a setting, trimmed, treating a blank value as absent.
fn read_setting(vars: &Vec<(String, String)>, s: Setting) -> (r: Option<Vec<char>>)
    ensures
        match setting_value(vars.deep_view(), s) {
            Some(v) => r matches Some(c) && c@ == v,
            None => r is None,
        },
{
    let key = s.name();
    let ghost env = vars.deep_view();
    let mut i: usize = 0;
    assert(env.subrange(0, env.len() as int) =~= env);
    while i < vars.len()
        invariant
            i <= vars@.len(),
            env == vars.deep_view(),
            key@ == setting_name(s),
            env_lookup(env, key@) == env_lookup(env.subrange(i as int, env.len() as int), key@),
        decreases vars@.len() - i,
    {
        let ghost rest = env.subrange(i as int, env.len() as int);
        assert(rest[0] == env[i as int]);
        assert(env[i as int] == (vars@[i as int].0@, vars@[i as int].1@));
        assert(rest.drop_first() =~= env.subrange(i + 1, env.len() as int));
        if str_eq(vars[i].0.as_str(), key) {
            let value = chars_of(vars[i].1.as_str());
            let trimmed = trim_chars(value.as_slice());
            if trimmed.len() > 0 {
                return Some(trimmed);
            } else {
                return None;
            }
        }
        i = i + 1;
    }
    None
}


/// The pieces of `s` between the separators `sep`, as `str::split` cuts it.
pub open spec fn split_on(s: Seq<char>, sep: char) -> Seq<Seq<char>>
    decreases s.len(),
{
    if s.len() == 0 {
        seq![Seq::empty()]
    } else {
        let before = split_on(s.drop_last(), sep);
        if s.last() == sep {
            before.push(Seq::empty())
        } else {
            before.update(before.len() - 1, before.last().push(s.last()))
        }
    }
}

proof fn lemma_split_on_nonempty(s: Seq<char>, sep: char)
    ensures
        split_on(s, sep).len() >= 1,
    decreases s.len(),
{
    if s.len() > 0 {
        lemma_split_on_nonempty(s.drop_last(), sep);
    }
}

/// The categories listed by comma-separated pieces, skipping blank ones: the
/// numbers, or the first piece that is not a `u32`.
pub open spec fn read_categories(pieces: Seq<Seq<char>>) -> Result<Seq<u32>, Seq<char>>
    decreases pieces.len(),
{
    if pieces.len() == 0 {
        Ok(Seq::empty())
    } else {
        match read_categories(pieces.drop_last()) {
            Err(e) => Err(e),
            Ok(done) => {
                let t = trim(pieces.last());
                if t.len() == 0 {
                    Ok(done)
                } else {
                    match parse_unsigned(t, u32::MAX as nat) {
                        Some(v) => Ok(done.push(v as u32)),
                        None => Err(t),
                    }
                }
            },
        }
    }
}

/// The search categories a `SEARCH_CATEGORIES` value selects.
pub open spec fn categories_from(raw: Option<Seq<char>>) -> Result<Seq<u32>, ConfigFault> {
    match raw {
        None => Ok(seq![BOOKS_EBOOK]),
        Some(s) => match read_categories(split_on(s, ',')) {
            Err(e) => Err(ConfigFault::InvalidCategory(e)),
            Ok(list) => if list.len() == 0 {
                Err(ConfigFault::NoCategory)
            } else {
                Ok(list)
            },
        },
    }
}

fn close_piece(done: Vec<u32>, piece: &Vec<char>, Ghost(pieces): Ghost<Seq<Seq<char>>>) -> (r:
    Result<Vec<u32>, Vec<char>>)
    requires
        pieces.len() >= 1,
        pieces.last() == piece@,
        read_categories(pieces.drop_last()) == Ok::<Seq<u32>, Seq<char>>(done@),
    ensures
        match read_categories(pieces) {
            Ok(list) => r matches Ok(v) && v@ == list,
            Err(e) => r matches Err(t) && t@ == e,
        },
{
    let t = trim_chars(piece.as_slice());
    if t.len() == 0 {
        return Ok(done);
    }
    match parse_decimal(t.as_slice(), u32::MAX as u64) {
        Some(v) => {
            let mut done = done;
            done.push(v as u32);
            Ok(done)
        },
        None => Err(t),
    }
}

/// Reads a comma-separated list of category numbers.
fn parse_categories(raw: Option<Vec<char>>) -> (r: Result<Vec<u32>, ConfigError>)
    ensures
        match categories_from(match raw {
            Some(v) => Some(v@),
            None => None,
        }) {
            Ok(list) => r matches Ok(v) && v@ == list,
            Err(e) => r matches Err(x) && x@ == e,
        },
{
    let text = match raw {
        None => {
            let mut v = Vec::new();
            v.push(BOOKS_EBOOK);
            assert(v@ =~= seq![BOOKS_EBOOK]);
            return Ok(v);
        },
        Some(t) => t,
    };
    let mut done: Vec<u32> = Vec::new();
    let mut piece: Vec<char> = Vec::new();
    let mut i: usize = 0;
    assert(text@.subrange(0, 0) =~= Seq::<char>::empty());
    assert(split_on(Seq::<char>::empty(), ',').drop_last() =~= Seq::<Seq<char>>::empty());
    while i < text.len()
        invariant
            i <= text@.len(),
            raw matches Some(v) && v@ == text@,
            split_on(text@.subrange(0, i as int), ',').len() >= 1,
            split_on(text@.subrange(0, i as int), ',').last() == piece@,
            read_categories(split_on(text@.subrange(0, i as int), ',').drop_last()) == Ok::<
                Seq<u32>,
                Seq<char>,
            >(done@),
        decreases text@.len() - i,
    {
        let ghost before = split_on(text@.subrange(0, i as int), ',');
        let c = text[i];
        assert(text@.subrange(0, i + 1).drop_last() =~= text@.subrange(0, i as int));
        if c == ',' {
            match close_piece(done, &piece, Ghost(before)) {
                Ok(d) => {
                    done = d;
                },
                Err(t) => {
                    proof {
                        assert(split_on(text@.subrange(0, i + 1), ',').drop_last() =~= before);
                        assert(read_categories(before) == Err::<Seq<u32>, Seq<char>>(t@));
                        lemma_read_categories_error_sticks(text@, i as int + 1);
                        assert(read_categories(split_on(text@, ',')) == Err::<Seq<u32>, Seq<char>>(
                            t@,
                        ));
                    }
                    return Err(ConfigError::InvalidCategory(crate::text::string_of(t.as_slice())));
                },
            }
            piece = Vec::new();
            assert(split_on(text@.subrange(0, i + 1), ',').drop_last() =~= before);
        } else {
            piece.push(c);
            assert(split_on(text@.subrange(0, i + 1), ',').drop_last() =~= before.drop_last());
            assert(piece@ =~= before.last().push(c));
        }
        i = i + 1;
    }
    assert(text@.subrange(0, i as int) =~= text@);
    let ghost all = split_on(text@, ',');
    match close_piece(done, &piece, Ghost(all)) {
        Ok(list) => {
            if list.len() == 0 {
                Err(ConfigError::NoCategory)
            } else {
                Ok(list)
            }
        },
        Err(t) => Err(ConfigError::InvalidCategory(crate::text::string_of(t.as_slice()))),
    }
}

/// Once a prefix of the list holds an invalid entry, the whole list fails on it.
proof fn lemma_read_categories_error_sticks(raw: Seq<char>, k: int)
    requires
        0 <= k <= raw.len(),
        read_categories(split_on(raw.subrange(0, k), ',').drop_last()) is Err,
    ensures
        read_categories(split_on(raw, ',')) == read_categories(
            split_on(raw.subrange(0, k), ',').drop_last(),
        ),
    decreases raw.len() - k,
{
    let p = split_on(raw.subrange(0, k), ',');
    lemma_split_on_nonempty(raw.subrange(0, k), ',');
    if k == raw.len() {
        assert(raw.subrange(0, k) =~= raw);
        assert(p =~= p.drop_last().push(p.last()));
    } else {
        let q = split_on(raw.subrange(0, k + 1), ',');
        assert(raw.subrange(0, k + 1).drop_last() =~= raw.subrange(0, k));
        if raw[k] == ',' {
            assert(q.drop_last() =~= p);
            assert(p =~= p.drop_last().push(p.last()));
        } else {
            assert(q.drop_last() =~= p.drop_last());
        }
        lemma_read_categories_error_sticks(raw, k + 1);
    }
}


/// A required setting, or the error naming it.
pub open spec fn required_from(vars: Seq<(Seq<char>, Seq<char>)>, s: Setting) -> Result<
    Seq<char>,
    ConfigFault,
> {
    match setting_value(vars, s) {
        Some(v) => Ok(v),
        None => Err(ConfigFault::Missing(s)),
    }
}

/// `MAX_RESULTS`: 25 unless set, and then between 1 and 25.
pub open spec fn max_results_from(vars: Seq<(Seq<char>, Seq<char>)>) -> Result<int, ConfigFault> {
    match setting_value(vars, Setting::MaxResults) {
        None => Ok(DISCORD_MENU_MAX as int),
        Some(v) => match parse_unsigned(v, usize::MAX as nat) {
            None => Err(ConfigFault::NotAnInteger(Setting::MaxResults)),
            Some(n) => if 1 <= n <= DISCORD_MENU_MAX {
                Ok(n as int)
            } else {
                Err(ConfigFault::OutOfRange(Setting::MaxResults))
            },
        },
    }
}

/// A bounded numeric setting: its default unless set, and then within its bounds.
pub open spec fn bounded_from(vars: Seq<(Seq<char>, Seq<char>)>, s: Setting) -> Result<
    int,
    ConfigFault,
> {
    match setting_value(vars, s) {
        None => Ok(bounds(s).1 as int),
        Some(v) => match parse_unsigned(v, u64::MAX as nat) {
            None => Err(ConfigFault::NotAnInteger(s)),
            Some(n) => if bounds(s).0 <= n <= bounds(s).2 {
                Ok(n as int)
            } else {
                Err(ConfigFault::OutOfRange(s))
            },
        },
    }
}

/// `DISCORD_GUILD_ID`: absent, or a numeric id.
pub open spec fn guild_from(vars: Seq<(Seq<char>, Seq<char>)>) -> Result<Option<u64>, ConfigFault> {
    match setting_value(vars, Setting::DiscordGuildId) {
        None => Ok(None),
        Some(v) => match parse_unsigned(v, u64::MAX as nat) {
            None => Err(ConfigFault::GuildIdNotNumeric),
            Some(n) => Ok(Some(n as u64)),
        },
    }
}

/// `DEFAULT_LOCALE`: English unless set, and then a language the bot speaks.
pub open spec fn locale_from(vars: Seq<(Seq<char>, Seq<char>)>) -> Result<Lang, ConfigFault> {
    match setting_value(vars, Setting::DefaultLocale) {
        None => Ok(Lang::En),
        Some(v) => match lang_named(normalised_name(v)) {
            Some(l) => Ok(l),
            None => Err(
                ConfigFault::UnsupportedLocale(
                    "unsupported language: "@ + normalised_name(v) + " (expected `en` or `fr`)"@,
                ),
            ),
        },
    }
}

/// The first problem found in the settings, in the order they are read.
pub open spec fn config_fault(vars: Seq<(Seq<char>, Seq<char>)>) -> Option<ConfigFault> {
    if max_results_from(vars) is Err {
        Some(max_results_from(vars)->Err_0)
    } else if required_from(vars, Setting::DiscordToken) is Err {
        Some(required_from(vars, Setting::DiscordToken)->Err_0)
    } else if guild_from(vars) is Err {
        Some(guild_from(vars)->Err_0)
    } else if required_from(vars, Setting::ProwlarrUrl) is Err {
        Some(required_from(vars, Setting::ProwlarrUrl)->Err_0)
    } else if required_from(vars, Setting::ProwlarrApiKey) is Err {
        Some(required_from(vars, Setting::ProwlarrApiKey)->Err_0)
    } else if required_from(vars, Setting::QbitUrl) is Err {
        Some(required_from(vars, Setting::QbitUrl)->Err_0)
    } else if categories_from(setting_value(vars, Setting::SearchCategories)) is Err {
        Some(categories_from(setting_value(vars, Setting::SearchCategories))->Err_0)
    } else if locale_from(vars) is Err {
        Some(locale_from(vars)->Err_0)
    } else if bounded_from(vars, Setting::WatchChecksPerDay) is Err {
        Some(bounded_from(vars, Setting::WatchChecksPerDay)->Err_0)
    } else if bounded_from(vars, Setting::WatchMaxDays) is Err {
        Some(bounded_from(vars, Setting::WatchMaxDays)->Err_0)
    } else if bounded_from(vars, Setting::WatchMaxPerUser) is Err {
        Some(bounded_from(vars, Setting::WatchMaxPerUser)->Err_0)
    } else if bounded_from(vars, Setting::DownloadCheckIntervalSecs) is Err {
        Some(bounded_from(vars, Setting::DownloadCheckIntervalSecs)->Err_0)
    } else {
        None
    }
}

/// What a [`Config`] holds, as plain values.
pub struct ConfigView {
    pub discord_token: Seq<char>,
    pub guild_id: Option<u64>,
    pub prowlarr_url: Seq<char>,
    pub prowlarr_api_key: Seq<char>,
    pub qbit_url: Seq<char>,
    pub qbit_user: Option<Seq<char>>,
    pub qbit_pass: Option<Seq<char>>,
    pub qbit_category: Seq<char>,
    pub search_categories: Seq<u32>,
    pub max_results: int,
    pub default_locale: Lang,
    pub watch_checks_per_day: int,
    pub watch_max_days: int,
    pub watch_max_per_user: int,
    pub watchlist_path: Seq<char>,
    pub download_check_interval_secs: int,
    pub downloads_path: Seq<char>,
}

/// A setting that is a plain text with a default.
pub open spec fn text_or(vars: Seq<(Seq<char>, Seq<char>)>, s: Setting, default: Seq<char>) -> Seq<
    char,
> {
    match setting_value(vars, s) {
        Some(v) => v,
        None => default,
    }
}

/// The configuration that settings free of any [`config_fault`] describe.
pub open spec fn config_from(vars: Seq<(Seq<char>, Seq<char>)>) -> ConfigView {
    ConfigView {
        discord_token: required_from(vars, Setting::DiscordToken)->Ok_0,
        guild_id: guild_from(vars)->Ok_0,
        prowlarr_url: trim_end_char(required_from(vars, Setting::ProwlarrUrl)->Ok_0, '/'),
        prowlarr_api_key: required_from(vars, Setting::ProwlarrApiKey)->Ok_0,
        qbit_url: trim_end_char(required_from(vars, Setting::QbitUrl)->Ok_0, '/'),
        qbit_user: setting_value(vars, Setting::QbitUser),
        qbit_pass: setting_value(vars, Setting::QbitPass),
        qbit_category: text_or(vars, Setting::QbitCategory, "ebooks"@),
        search_categories: categories_from(setting_value(vars, Setting::SearchCategories))->Ok_0,
        max_results: max_results_from(vars)->Ok_0,
        default_locale: locale_from(vars)->Ok_0,
        watch_checks_per_day: bounded_from(vars, Setting::WatchChecksPerDay)->Ok_0,
        watch_max_days: bounded_from(vars, Setting::WatchMaxDays)->Ok_0,
        watch_max_per_user: bounded_from(vars, Setting::WatchMaxPerUser)->Ok_0,
        watchlist_path: text_or(vars, Setting::WatchlistPath, "data/watchlist.json"@),
        download_check_interval_secs: bounded_from(vars, Setting::DownloadCheckIntervalSecs)->Ok_0,
        downloads_path: text_or(vars, Setting::DownloadsPath, "data/downloads.json"@),
    }
}

/// The view of an optional text.
pub open spec fn opt_view(o: Option<String>) -> Option<Seq<char>> {
    match o {
        Some(s) => Some(s@),
        None => None,
    }
}

/// Everything the bot is configured with.
#[derive(Debug, Clone, PartialEq, Eq)]
pub struct Config {
    pub discord_token: String,
    /// Set to register commands instantly in one guild instead of globally.
    pub guild_id: Option<u64>,
    pub prowlarr_url: String,
    pub prowlarr_api_key: String,
    pub qbit_url: String,
    pub qbit_user: Option<String>,
    pub qbit_pass: Option<String>,
    pub qbit_category: String,
    /// Newznab category ids.
    pub search_categories: Vec<u32>,
    pub max_results: usize,
    /// Used for locales with no messages of their own.
    pub default_locale: Lang,
    /// How often a standing search is retried, per day.
    pub watch_checks_per_day: u32,
    /// A standing search gives up after this many days.
    pub watch_max_days: i64,
    pub watch_max_per_user: usize,
    pub watchlist_path: String,
    /// How often a tracked download is checked for having finished seeding.
    pub download_check_interval_secs: i64,
    pub downloads_path: String,
}

impl View for Config {
    type V = ConfigView;

    open spec fn view(&self) -> ConfigView {
        ConfigView {
            discord_token: self.discord_token@,
            guild_id: self.guild_id,
            prowlarr_url: self.prowlarr_url@,
            prowlarr_api_key: self.prowlarr_api_key@,
            qbit_url: self.qbit_url@,
            qbit_user: opt_view(self.qbit_user),
            qbit_pass: opt_view(self.qbit_pass),
            qbit_category: self.qbit_category@,
            search_categories: self.search_categories@,
            max_results: self.max_results as int,
            default_locale: self.default_locale,
            watch_checks_per_day: self.watch_checks_per_day as int,
            watch_max_days: self.watch_max_days as int,
            watch_max_per_user: self.watch_max_per_user as int,
            watchlist_path: self.watchlist_path@,
            download_check_interval_secs: self.download_check_interval_secs as int,
            downloads_path: self.downloads_path@,
        }
    }
}

/// `url` without its trailing slashes, so paths appended to it do not double up.
pub fn strip_trailing_slash(url: &str) -> (s: String)
    ensures
        s@ == trim_end_char(url@, '/'),
{
    trim_end_char_str(url, '/')
}

fn required(vars: &Vec<(String, String)>, s: Setting) -> (r: Result<String, ConfigError>)
    ensures
        match required_from(vars.deep_view(), s) {
            Ok(v) => r matches Ok(x) && x@ == v,
            Err(e) => r matches Err(x) && x@ == e,
        },
{
    match read_setting(vars, s) {
        Some(v) => Ok(crate::text::string_of(v.as_slice())),
        None => Err(ConfigError::Missing(s)),
    }
}

fn optional(vars: &Vec<(String, String)>, s: Setting) -> (r: Option<String>)
    ensures
        opt_view(r) == setting_value(vars.deep_view(), s),
{
    match read_setting(vars, s) {
        Some(v) => Some(crate::text::string_of(v.as_slice())),
        None => None,
    }
}

fn text_setting(vars: &Vec<(String, String)>, s: Setting, default: &str) -> (r: String)
    ensures
        r@ == text_or(vars.deep_view(), s, default@),
{
    match read_setting(vars, s) {
        Some(v) => crate::text::string_of(v.as_slice()),
        None => String::from_str(default),
    }
}

fn bounded(vars: &Vec<(String, String)>, s: Setting, default: u64, min: u64, max: u64) -> (r:
    Result<u64, ConfigError>)
    requires
        bounds(s) == (min as nat, default as nat, max as nat),
    ensures
        match bounded_from(vars.deep_view(), s) {
            Ok(v) => r == Ok::<u64, ConfigError>(v as u64),
            Err(e) => r matches Err(x) && x@ == e,
        },
{
    match read_setting(vars, s) {
        None => Ok(default),
        Some(v) => match parse_decimal(v.as_slice(), u64::MAX) {
            None => Err(ConfigError::NotAnInteger(s)),
            Some(n) => if min <= n && n <= max {
                Ok(n)
            } else {
                Err(ConfigError::OutOfRange(s))
            },
        },
    }
}

impl Config {
    /// Reads the configuration from environment variables given as
    /// name/value pairs; the first pair with a name wins.
    pub fn from_lookup(vars: &Vec<(String, String)>) -> (r: Result<Config, ConfigError>)
        ensures
            match config_fault(vars.deep_view()) {
                Some(f) => r matches Err(e) && e@ == f,
                None => r matches Ok(c) && c@ == config_from(vars.deep_view()),
            },
    {
        let ghost env = vars.deep_view();
        let max_results: usize = match read_setting(vars, Setting::MaxResults) {
            None => DISCORD_MENU_MAX,
            Some(v) => match parse_decimal(v.as_slice(), usize::MAX as u64) {
                None => {
                    return Err(ConfigError::NotAnInteger(Setting::MaxResults));
                },
                Some(n) => {
                    if 1 <= n && n <= DISCORD_MENU_MAX as u64 {
                        n as usize
                    } else {
                        return Err(ConfigError::OutOfRange(Setting::MaxResults));
                    }
                },
            },
        };
        let discord_token = required(vars, Setting::DiscordToken)?;
        let guild_id = match read_setting(vars, Setting::DiscordGuildId) {
            None => None,
            Some(v) => match parse_decimal(v.as_slice(), u64::MAX) {
                None => {
                    return Err(ConfigError::GuildIdNotNumeric);
                },
                Some(n) => Some(n),
            },
        };
        let prowlarr_url = required(vars, Setting::ProwlarrUrl)?;
        let prowlarr_api_key = required(vars, Setting::ProwlarrApiKey)?;
        let qbit_url = required(vars, Setting::QbitUrl)?;
        let qbit_user = optional(vars, Setting::QbitUser);
        let qbit_pass = optional(vars, Setting::QbitPass);
        let qbit_category = text_setting(vars, Setting::QbitCategory, "ebooks");
        let search_categories = parse_categories(read_setting(vars, Setting::SearchCategories))?;
        let default_locale = match read_setting(vars, Setting::DefaultLocale) {
            None => Lang::En,
            Some(v) => {
                let text = crate::text::string_of(v.as_slice());
                match Lang::parse_name(text.as_str()) {
                    Ok(l) => l,
                    Err(e) => {
                        return Err(ConfigError::UnsupportedLocale(e));
                    },
                }
            },
        };
        let watch_checks_per_day = bounded(vars, Setting::WatchChecksPerDay, 4, 1, 24)?;
        let watch_max_days = bounded(vars, Setting::WatchMaxDays, 30, 1, 365)?;
        let watch_max_per_user = bounded(vars, Setting::WatchMaxPerUser, 10, 1, 100)?;
        let watchlist_path = text_setting(vars, Setting::WatchlistPath, "data/watchlist.json");
        let download_check_interval_secs = bounded(
            vars,
            Setting::DownloadCheckIntervalSecs,
            300,
            60,
            3_600,
        )?;
        let downloads_path = text_setting(vars, Setting::DownloadsPath, "data/downloads.json");
        Ok(Config {
            discord_token,
            guild_id,
            prowlarr_url: strip_trailing_slash(prowlarr_url.as_str()),
            prowlarr_api_key,
            qbit_url: strip_trailing_slash(qbit_url.as_str()),
            qbit_user,
            qbit_pass,
            qbit_category,
            search_categories,
            max_results,
            default_locale,
            watch_checks_per_day: watch_checks_per_day as u32,
            watch_max_days: watch_max_days as i64,
            watch_max_per_user: watch_max_per_user as usize,
            watchlist_path,
            download_check_interval_secs: download_check_interval_secs as i64,
            downloads_path,
        })
    }
}


/// Numbers separated by `, `, as `{:?}` lists them inside the brackets.
pub open spec fn comma_list(s: Seq<u32>) -> Seq<char>
    decreases s.len(),
{
    if s.len() == 0 {
        Seq::empty()
    } else if s.len() == 1 {
        decimal(s[0] as nat)
    } else {
        comma_list(s.drop_last()) + ", "@ + decimal(s.last() as nat)
    }
}

/// The startup summary of a configuration. Secrets appear only as present or absent.
pub open spec fn summary_of(c: ConfigView) -> Seq<char> {
    "prowlarr="@ + c.prowlarr_url + " qbit="@ + c.qbit_url + " qbit_auth="@ + (if c.qbit_user is Some
        && c.qbit_pass is Some {
        "credentials"@
    } else {
        "none (relying on qBittorrent's subnet bypass)"@
    }) + " category="@ + c.qbit_category + " categories=["@ + comma_list(c.search_categories)
        + "] locale="@ + (match c.default_locale {
        Lang::En => "en"@,
        Lang::Fr => "fr"@,
    }) + " guild="@ + (match c.guild_id {
        Some(id) => decimal(id as nat),
        None => "global"@,
    }) + " max_results="@ + decimal(c.max_results as nat) + " watch="@ + decimal(
        c.watch_checks_per_day as nat,
    ) + "/day max_days="@ + signed_decimal(c.watch_max_days) + " max_per_user="@ + decimal(
        c.watch_max_per_user as nat,
    ) + " watchlist="@ + c.watchlist_path + " download_check="@ + signed_decimal(
        c.download_check_interval_secs,
    ) + "s downloads="@ + c.downloads_path
}

fn push_comma_list(out: &mut String, list: &Vec<u32>)
    ensures
        final(out)@ == old(out)@ + comma_list(list@),
{
    let ghost start = out@;
    let mut i: usize = 0;
    assert(list@.subrange(0, 0) =~= Seq::<u32>::empty());
    assert(out@ =~= start + comma_list(list@.subrange(0, 0)));
    while i < list.len()
        invariant
            i <= list@.len(),
            out@ == start + comma_list(list@.subrange(0, i as int)),
        decreases list@.len() - i,
    {
        assert(list@.subrange(0, i + 1).drop_last() =~= list@.subrange(0, i as int));
        if i > 0 {
            out.append(", ");
        }
        push_decimal(out, list[i] as u64);
        i = i + 1;
        assert(out@ =~= start + comma_list(list@.subrange(0, i as int)));
    }
    assert(list@.subrange(0, list@.len() as int) =~= list@);
}

impl Config {
    /// What the bot is actually configured to talk to, for the startup log.
    ///
    /// Secrets are reported as present or absent, never echoed: this line ends
    /// up in container logs, which people paste into issues.
    pub fn summary(&self) -> (s: String)
        ensures
            s@ == summary_of(self@),
    {
        let mut s = String::from_str("prowlarr=");
        s.append(self.prowlarr_url.as_str());
        s.append(" qbit=");
        s.append(self.qbit_url.as_str());
        s.append(" qbit_auth=");
        if self.qbit_user.is_some() && self.qbit_pass.is_some() {
            s.append("credentials");
        } else {
            s.append("none (relying on qBittorrent's subnet bypass)");
        }
        s.append(" category=");
        s.append(self.qbit_category.as_str());
        s.append(" categories=[");
        push_comma_list(&mut s, &self.search_categories);
        s.append("] locale=");
        s.append(self.default_locale.code());
        s.append(" guild=");
        match self.guild_id {
            Some(id) => push_decimal(&mut s, id),
            None => s.append("global"),
        }
        s.append(" max_results=");
        push_decimal(&mut s, self.max_results as u64);
        s.append(" watch=");
        push_decimal(&mut s, self.watch_checks_per_day as u64);
        s.append("/day max_days=");
        push_signed_decimal(&mut s, self.watch_max_days);
        s.append(" max_per_user=");
        push_decimal(&mut s, self.watch_max_per_user as u64);
        s.append(" watchlist=");
        s.append(self.watchlist_path.as_str());
        s.append(" download_check=");
        push_signed_decimal(&mut s, self.download_check_interval_secs);
        s.append("s downloads=");
        s.append(self.downloads_path.as_str());
        s
    }

    /// Seconds between two checks of a standing search.
    pub fn watch_interval_secs(&self) -> (secs: i64)
        requires
            self.watch_checks_per_day > 0,
        ensures
            secs == SECONDS_PER_DAY / (self.watch_checks_per_day as i64),
    {
        SECONDS_PER_DAY / (self.watch_checks_per_day as i64)
    }

    /// Seconds a standing search runs before it gives up.
    pub fn watch_max_age_secs(&self) -> (secs: i64)
        requires
            i64::MIN <= self.watch_max_days * SECONDS_PER_DAY <= i64::MAX,
        ensures
            secs == self.watch_max_days * SECONDS_PER_DAY,
    {
        self.watch_max_days * SECONDS_PER_DAY
    }
}

/// The summary never depends on a secret: two configurations that differ only
/// in the Discord token, the Prowlarr API key and the qBittorrent password
/// (while a password stays set or unset) summarise to the same line.
pub proof fn summary_ignores_secrets(a: Config, b: Config)
    requires
        a@.prowlarr_url == b@.prowlarr_url,
        a@.qbit_url == b@.qbit_url,
        a@.qbit_user is Some == b@.qbit_user is Some,
        a@.qbit_pass is Some == b@.qbit_pass is Some,
        a@.qbit_category == b@.qbit_category,
        a@.search_categories == b@.search_categories,
        a@.default_locale == b@.default_locale,
        a@.guild_id == b@.guild_id,
        a@.max_results == b@.max_results,
        a@.watch_checks_per_day == b@.watch_checks_per_day,
        a@.watch_max_days == b@.watch_max_days,
        a@.watch_max_per_user == b@.watch_max_per_user,
        a@.watchlist_path == b@.watchlist_path,
        a@.download_check_interval_secs == b@.download_check_interval_secs,
        a@.downloads_path == b@.downloads_path,
    ensures
        summary_of(a@) == summary_of(b@),
{
}

/// A configuration that was read successfully is within every bound the
/// settings impose.
pub proof fn read_configuration_is_bounded(vars: Seq<(Seq<char>, Seq<char>)>)
    requires
        config_fault(vars) is None,
    ensures
        1 <= config_from(vars).max_results <= 25,
        1 <= config_from(vars).watch_checks_per_day <= 24,
        1 <= config_from(vars).watch_max_days <= 365,
        1 <= config_from(vars).watch_max_per_user <= 100,
        60 <= config_from(vars).download_check_interval_secs <= 3600,
        config_from(vars).search_categories.len() >= 1,
        config_from(vars).discord_token.len() > 0,
        config_from(vars).prowlarr_api_key.len() > 0,
{
}

/// The summary says whether qBittorrent credentials are set, and nothing else
/// of them: `qbit_auth=credentials` when a user and a password are both set,
/// `qbit_auth=none` otherwise.
pub proof fn summary_reports_only_whether_credentials_are_set(c: ConfigView)
    ensures
        c.qbit_user is Some && c.qbit_pass is Some ==> contains(
            summary_of(c),
            " qbit_auth=credentials"@,
        ),
        !(c.qbit_user is Some && c.qbit_pass is Some) ==> contains(
            summary_of(c),
            " qbit_auth=none"@,
        ),
{
    reveal_strlit("prowlarr=");
    reveal_strlit(" qbit=");
    reveal_strlit(" qbit_auth=");
    reveal_strlit("credentials");
    reveal_strlit("none (relying on qBittorrent's subnet bypass)");
    reveal_strlit(" qbit_auth=credentials");
    reveal_strlit(" qbit_auth=none");
    let s = summary_of(c);
    let at: int = ("prowlarr="@ + c.prowlarr_url + " qbit="@ + c.qbit_url).len() as int;
    if c.qbit_user is Some && c.qbit_pass is Some {
        assert(s.subrange(at, at + " qbit_auth=credentials"@.len()) =~= " qbit_auth=credentials"@);
    } else {
        assert(s.subrange(at, at + " qbit_auth=none"@.len()) =~= " qbit_auth=none"@);
    }
}

/// The four settings without which the bot cannot start.
pub open spec fn is_required(s: Setting) -> bool {
    s == Setting::DiscordToken || s == Setting::ProwlarrUrl || s == Setting::ProwlarrApiKey || s
        == Setting::QbitUrl
}

/// Every variable set names a required setting.
pub open spec fn only_required_set(vars: Seq<(Seq<char>, Seq<char>)>) -> bool {
    forall|i: int|
        0 <= i < vars.len() ==> exists|s: Setting| is_required(s) && #[trigger] setting_name(s)
            == (#[trigger] vars[i]).0
}

/// No pair named `key`: nothing is found under it.
proof fn lemma_unset_key(vars: Seq<(Seq<char>, Seq<char>)>, key: Seq<char>)
    requires
        forall|i: int| 0 <= i < vars.len() ==> (#[trigger] vars[i]).0 != key,
    ensures
        env_lookup(vars, key) is None,
    decreases vars.len(),
{
    if vars.len() > 0 {
        assert(vars[0].0 != key);
        assert forall|i: int| 0 <= i < vars.drop_first().len() implies (
        #[trigger] vars.drop_first()[i]).0 != key by {
            assert(vars.drop_first()[i] == vars[i + 1]);
        }
        lemma_unset_key(vars.drop_first(), key);
    }
}

/// Where only required settings are set, any other one reads as unset.
proof fn lemma_optional_unset(vars: Seq<(Seq<char>, Seq<char>)>, s: Setting)
    requires
        only_required_set(vars),
        !is_required(s),
    ensures
        setting_value(vars, s) is None,
{
    reveal_strlit("DISCORD_TOKEN");
    reveal_strlit("DISCORD_GUILD_ID");
    reveal_strlit("PROWLARR_URL");
    reveal_strlit("PROWLARR_API_KEY");
    reveal_strlit("QBIT_URL");
    reveal_strlit("QBIT_USER");
    reveal_strlit("QBIT_PASS");
    reveal_strlit("QBIT_CATEGORY");
    reveal_strlit("SEARCH_CATEGORIES");
    reveal_strlit("MAX_RESULTS");
    reveal_strlit("DEFAULT_LOCALE");
    reveal_strlit("WATCH_CHECKS_PER_DAY");
    reveal_strlit("WATCH_MAX_DAYS");
    reveal_strlit("WATCH_MAX_PER_USER");
    reveal_strlit("WATCHLIST_PATH");
    reveal_strlit("DOWNLOAD_CHECK_INTERVAL_SECS");
    reveal_strlit("DOWNLOADS_PATH");
    assert forall|i: int| 0 <= i < vars.len() implies (#[trigger] vars[i]).0 != setting_name(s) by {
        let r = choose|r: Setting| is_required(r) && #[trigger] setting_name(r) == vars[i].0;
        assert(setting_name(r)[0] != setting_name(s)[0] || setting_name(r).len() != setting_name(
            s,
        ).len() || setting_name(r)[9] != setting_name(s)[9]);
    }
    lemma_unset_key(vars, setting_name(s));
}

/// A required variable left unset or blank is refused with an error naming
/// it: with the other required ones set and nothing else, reading fails on
/// exactly that variable.
pub proof fn a_missing_required_variable_is_named(
    vars: Seq<(Seq<char>, Seq<char>)>,
    missing: Setting,
)
    requires
        is_required(missing),
        only_required_set(vars),
        setting_value(vars, missing) is None,
        forall|s: Setting| is_required(s) && s != missing ==> #[trigger] setting_value(vars, s) is Some,
    ensures
        config_fault(vars) == Some(ConfigFault::Missing(missing)),
        contains(fault_message(ConfigFault::Missing(missing)), setting_name(missing)),
{
    lemma_optional_unset(vars, Setting::MaxResults);
    lemma_optional_unset(vars, Setting::DiscordGuildId);
    lemma_optional_unset(vars, Setting::SearchCategories);
    lemma_optional_unset(vars, Setting::DefaultLocale);
    lemma_optional_unset(vars, Setting::WatchChecksPerDay);
    lemma_optional_unset(vars, Setting::WatchMaxDays);
    lemma_optional_unset(vars, Setting::WatchMaxPerUser);
    lemma_optional_unset(vars, Setting::DownloadCheckIntervalSecs);
    assert(setting_value(vars, Setting::DiscordToken) is Some || missing == Setting::DiscordToken);
    assert(setting_value(vars, Setting::ProwlarrUrl) is Some || missing == Setting::ProwlarrUrl);
    assert(setting_value(vars, Setting::ProwlarrApiKey) is Some || missing
        == Setting::ProwlarrApiKey);
    assert(setting_value(vars, Setting::QbitUrl) is Some || missing == Setting::QbitUrl);
    reveal_strlit("missing environment variable: ");
    let m = fault_message(ConfigFault::Missing(missing));
    let at: int = "missing environment variable: "@.len() as int;
    assert(m.subrange(at, at + setting_name(missing).len()) =~= setting_name(missing));
}

/// Different settings are held by differently named variables.
proof fn lemma_names_differ(a: Setting, b: Setting)
    requires
        a != b,
    ensures
        setting_name(a) != setting_name(b),
{
    reveal_strlit("DISCORD_TOKEN");
    reveal_strlit("DISCORD_GUILD_ID");
    reveal_strlit("PROWLARR_URL");
    reveal_strlit("PROWLARR_API_KEY");
    reveal_strlit("QBIT_URL");
    reveal_strlit("QBIT_USER");
    reveal_strlit("QBIT_PASS");
    reveal_strlit("QBIT_CATEGORY");
    reveal_strlit("SEARCH_CATEGORIES");
    reveal_strlit("MAX_RESULTS");
    reveal_strlit("DEFAULT_LOCALE");
    reveal_strlit("WATCH_CHECKS_PER_DAY");
    reveal_strlit("WATCH_MAX_DAYS");
    reveal_strlit("WATCH_MAX_PER_USER");
    reveal_strlit("WATCHLIST_PATH");
    reveal_strlit("DOWNLOAD_CHECK_INTERVAL_SECS");
    reveal_strlit("DOWNLOADS_PATH");
    let (x, y) = (setting_name(a), setting_name(b));
    assert(x.len() != y.len() || x[0] != y[0] || x[1] != y[1] || x[5] != y[5]);
}

/// The numeric settings kept within bounds.
pub open spec fn is_bounded(s: Setting) -> bool {
    s == Setting::MaxResults || s == Setting::WatchChecksPerDay || s == Setting::WatchMaxDays || s
        == Setting::WatchMaxPerUser || s == Setting::DownloadCheckIntervalSecs
}

/// The largest number a bounded setting's type can read.
pub open spec fn read_limit(s: Setting) -> nat {
    if s == Setting::MaxResults {
        usize::MAX as nat
    } else {
        u64::MAX as nat
    }
}

/// The value a configuration holds for a bounded setting.
pub open spec fn bounded_value(c: ConfigView, s: Setting) -> int {
    match s {
        Setting::MaxResults => c.max_results,
        Setting::WatchChecksPerDay => c.watch_checks_per_day,
        Setting::WatchMaxDays => c.watch_max_days,
        Setting::WatchMaxPerUser => c.watch_max_per_user,
        _ => c.download_check_interval_secs,
    }
}

/// Where only required settings and `extra` are set, any other one reads as unset.
proof fn lemma_unset_but(vars: Seq<(Seq<char>, Seq<char>)>, extra: Setting, s: Setting)
    requires
        forall|i: int|
            0 <= i < vars.len() ==> exists|r: Setting|
                (is_required(r) || r == extra) && #[trigger] setting_name(r) == (#[trigger] vars[i]).0,
        !is_required(s),
        s != extra,
    ensures
        setting_value(vars, s) is None,
{
    assert forall|i: int| 0 <= i < vars.len() implies (#[trigger] vars[i]).0 != setting_name(s) by {
        let r = choose|r: Setting| (is_required(r) || r == extra) && #[trigger] setting_name(r) == vars[i].0;
        lemma_names_differ(r, s);
    }
    lemma_unset_key(vars, setting_name(s));
}

/// A bounded numeric setting is taken exactly when it lies within its bounds,
/// and is otherwise refused with an error naming it: with the required
/// settings set and nothing else, a value written `v` fails the reading
/// exactly when `v` is out of bounds, and is taken as `v` otherwise.
pub proof fn a_bounded_setting_is_taken_within_its_bounds(
    vars: Seq<(Seq<char>, Seq<char>)>,
    s: Setting,
    v: nat,
)
    requires
        is_bounded(s),
        forall|i: int|
            0 <= i < vars.len() ==> exists|r: Setting|
                (is_required(r) || r == s) && #[trigger] setting_name(r) == (#[trigger] vars[i]).0,
        env_lookup(vars, setting_name(s)) == Some(decimal(v)),
        forall|r: Setting| is_required(r) ==> #[trigger] setting_value(vars, r) is Some,
    ensures
        config_fault(vars) is Some <==> (v < bounds(s).0 || v > bounds(s).2),
        config_fault(vars) matches Some(f) ==> contains(fault_message(f), setting_name(s)),
        config_fault(vars) is None ==> bounded_value(config_from(vars), s) == v,
        (v < bounds(s).0 || v > bounds(s).2) && v <= read_limit(s) ==> config_fault(vars) == Some(
            ConfigFault::OutOfRange(s),
        ) && contains(
            fault_message(ConfigFault::OutOfRange(s)),
            "between "@ + decimal(bounds(s).0) + " and "@ + decimal(bounds(s).2),
        ),
{
    lemma_decimal_reads_back(v);
    assert(setting_value(vars, s) == Some(decimal(v)));
    let others = seq![
        Setting::MaxResults,
        Setting::DiscordGuildId,
        Setting::SearchCategories,
        Setting::DefaultLocale,
        Setting::WatchChecksPerDay,
        Setting::WatchMaxDays,
        Setting::WatchMaxPerUser,
        Setting::DownloadCheckIntervalSecs,
    ];
    assert forall|k: int| 0 <= k < others.len() && others[k] != s implies setting_value(
        vars,
        #[trigger] others[k],
    ) is None by {
        lemma_unset_but(vars, s, others[k]);
    }
    assert(others[0] == Setting::MaxResults);
    assert(others[1] == Setting::DiscordGuildId);
    assert(others[2] == Setting::SearchCategories);
    assert(others[3] == Setting::DefaultLocale);
    assert(others[4] == Setting::WatchChecksPerDay);
    assert(others[5] == Setting::WatchMaxDays);
    assert(others[6] == Setting::WatchMaxPerUser);
    assert(others[7] == Setting::DownloadCheckIntervalSecs);
    assert(setting_value(vars, Setting::DiscordToken) is Some);
    assert(setting_value(vars, Setting::ProwlarrUrl) is Some);
    assert(setting_value(vars, Setting::ProwlarrApiKey) is Some);
    assert(setting_value(vars, Setting::QbitUrl) is Some);
    if (v < bounds(s).0 || v > bounds(s).2) && v <= read_limit(s) {
        let m = fault_message(ConfigFault::OutOfRange(s));
        let range = "between "@ + decimal(bounds(s).0) + " and "@ + decimal(bounds(s).2);
        let at: int = (setting_name(s).len() + 9) as int;
        reveal_strlit("MAX_RESULTS");
        reveal_strlit("MAX_RESULTS must be between 1 and 25 (Discord select menu limit)");
        reveal_strlit(" must be between ");
        reveal_strlit("between ");
        reveal_strlit(" and ");
        reveal_with_fuel(decimal, 3);
        assert(m.subrange(at, at + range.len()) =~= range);
    }
    if let Some(f) = config_fault(vars) {
        assert(f == ConfigFault::NotAnInteger(s) || f == ConfigFault::OutOfRange(s));
        let n = setting_name(s);
        reveal_strlit("MAX_RESULTS");
        reveal_strlit("MAX_RESULTS must be between 1 and 25 (Discord select menu limit)");
        let z: int = 0;
        assert(fault_message(f).subrange(z, z + n.len()) =~= n);
    }
}

/// Where the summary tells whether qBittorrent credentials are set: right
/// after the two URLs.
pub open spec fn auth_at(c: ConfigView) -> int {
    ("prowlarr="@ + c.prowlarr_url + " qbit="@ + c.qbit_url).len() as int
}

/// At that place the summary reads ` qbit_auth=credentials` exactly when a
/// user and a password are both set.
pub proof fn the_credentials_flag_reads_exactly_whether_both_are_set(c: ConfigView)
    ensures
        (summary_of(c).subrange(auth_at(c), auth_at(c) + 22) == " qbit_auth=credentials"@) <==> (
        c.qbit_user is Some && c.qbit_pass is Some),
{
    reveal_strlit("prowlarr=");
    reveal_strlit(" qbit=");
    reveal_strlit(" qbit_auth=");
    reveal_strlit("credentials");
    reveal_strlit("none (relying on qBittorrent's subnet bypass)");
    reveal_strlit(" qbit_auth=credentials");
    let s = summary_of(c);
    let at = auth_at(c);
    if c.qbit_user is Some && c.qbit_pass is Some {
        assert(s.subrange(at, at + 22) =~= " qbit_auth=credentials"@);
    } else {
        assert(s[at + 11] == 'n');
        assert(s.subrange(at, at + 22)[11] != " qbit_auth=credentials"@[11]);
    }
}

/// The category downloads are filed under is the one `QBIT_CATEGORY` names,
/// trimmed; `ebooks` is used only when that variable is unset or blank.
pub proof fn the_category_is_read_from_its_variable(vars: Seq<(Seq<char>, Seq<char>)>)
    ensures
        config_from(vars).qbit_category == match env_lookup(vars, "QBIT_CATEGORY"@) {
            Some(v) => if trim(v).len() > 0 {
                trim(v)
            } else {
                "ebooks"@
            },
            None => "ebooks"@,
        },
{
}

} // verus!

//! What Discord shows: embeds, menu options and buttons, built as plain values
//! so every decision about them can be checked without a Discord connection.

use crate::i18n::{
    added_title_text, category_missing_text, default_folder_text, failed_title_text,
    field_category_text, field_destination_text, field_size_text, more_in_menu_text,
    no_save_path_text, release_summary_text, status_title_text, watch_button_text,
    watchlist_empty_text, watchlist_entry_text, watchlist_title_text, watchlist_waiting_text,
    Lang,
};
use crate::prowlarr::{seeder_count, seeds, Release};
use crate::qbittorrent::{category_named, distinct_names, find_category, Category};
use crate::text::{chars_of, decimal, parse_decimal, parse_unsigned, push_char, push_decimal, string_of, trim, trim_str};
use crate::watchlist::Watch;
use crate::SECONDS_PER_DAY;
use vstd::prelude::*;
use vstd::string::*;

verus! {

pub const BLUE: u32 = 0x3498db;

pub const GREEN: u32 = 0x2ecc71;

pub const RED: u32 = 0xe74c3c;

pub const GREY: u32 = 0x95a5a6;

/// Listed in the embed body; the rest stay reachable from the menu.
pub const LISTED: usize = 10;

/// Discord rejects longer menu labels and descriptions.
pub const LABEL_MAX: usize = 100;

/// How `humansize::format_size` writes a byte count with its `DECIMAL` options.
pub uninterp spec fn decimal_size(bytes: u64) -> Seq<char>;

/// A byte count in SI units, as `humansize::format_size(bytes, DECIMAL)` writes it.
#[verifier::external_body]
fn format_decimal_size(bytes: u64) -> (s: String)
    ensures
        s@ == decimal_size(bytes),
{
    humansize::format_size(bytes, humansize::DECIMAL)
}

/// `text` cut to at most `max` characters, the last one then being `…`.
pub open spec fn truncated(text: Seq<char>, max: nat) -> Seq<char> {
    if text.len() <= max {
        text
    } else {
        text.take(if max >= 1 { max - 1 } else { 0 }).push('…')
    }
}

/// On a character boundary: byte slicing panics on the accented titles.
pub fn truncate(text: &str, max: usize) -> (s: String)
    ensures
        s@ == truncated(text@, max as nat),
{
    let chars = chars_of(text);
    if chars.len() <= max {
        return String::from_str(text);
    }
    let keep: usize = if max >= 1 { max - 1 } else { 0 };
    let mut s = String::new();
    let mut i: usize = 0;
    while i < keep
        invariant
            keep < chars@.len(),
            i <= keep,
            s@ == chars@.take(i as int),
        decreases keep - i,
    {
        push_char(&mut s, chars[i]);
        i = i + 1;
        assert(s@ =~= chars@.take(i as int));
    }
    push_char(&mut s, '…');
    s
}

/// Texts joined with `sep` between them.
pub open spec fn joined(parts: Seq<Seq<char>>, sep: Seq<char>) -> Seq<char>
    decreases parts.len(),
{
    if parts.len() == 0 {
        Seq::empty()
    } else if parts.len() == 1 {
        parts[0]
    } else {
        joined(parts.drop_last(), sep) + sep + parts.last()
    }
}

/// An embed field.
#[derive(Debug, Clone, PartialEq, Eq)]
pub struct EmbedField {
    pub name: String,
    pub value: String,
    pub inline: bool,
}

/// A Discord embed.
#[derive(Debug, Clone, PartialEq, Eq)]
pub struct Embed {
    pub title: String,
    pub description: String,
    pub colour: u32,
    pub fields: Vec<EmbedField>,
}

/// An option of a select menu.
#[derive(Debug, Clone, PartialEq, Eq)]
pub struct MenuOption {
    pub label: String,
    pub value: String,
    pub description: String,
}

/// A primary button with an emoji.
#[derive(Debug, Clone, PartialEq, Eq)]
pub struct Button {
    pub custom_id: String,
    pub label: String,
    pub emoji: char,
}

/// What an embed field shows.
pub open spec fn field_is(f: EmbedField, name: Seq<char>, value: Seq<char>, inline: bool) -> bool {
    f.name@ == name && f.value@ == value && f.inline == inline
}

fn field(name: &str, value: String, inline: bool) -> (f: EmbedField)
    ensures
        field_is(f, name@, value@, inline),
{
    EmbedField { name: String::from_str(name), value, inline }
}

/// The index of an entry, right-aligned on two characters as `{:>2}` writes it.
pub open spec fn padded_index(n: nat) -> Seq<char> {
    if n < 10 {
        seq![' '] + decimal(n)
    } else {
        decimal(n)
    }
}

/// The two lines that list one release.
pub open spec fn release_line(position: nat, r: Release) -> Seq<char> {
    "`"@ + padded_index(position) + "` **"@ + truncated(r.title@, 80) + "**\n     "@ + decimal_size(
        r.size,
    ) + " · 🌱 "@ + decimal(seeds(r)) + " · "@ + r.indexer@
}

/// The lines listing the first releases, numbered from 1.
pub open spec fn release_lines(results: Seq<Release>) -> Seq<Seq<char>> {
    Seq::new(results.len(), |i: int| release_line((i + 1) as nat, results[i]))
}

/// How many releases the body lists.
pub open spec fn listed_count(n: nat) -> nat {
    if n < LISTED { n } else { LISTED as nat }
}

/// The body of the results embed: the first ten releases, then a note of how
/// many more the menu holds.
pub open spec fn results_description(results: Seq<Release>, lang: Lang) -> Seq<char> {
    let shown = results.take(listed_count(results.len()) as int);
    let hidden = (results.len() - shown.len()) as nat;
    joined(release_lines(shown), "\n"@) + if hidden > 0 {
        more_in_menu_text(lang, hidden)
    } else {
        Seq::empty()
    }
}

fn release_entry(position: usize, r: &Release) -> (s: String)
    requires
        1 <= position <= LISTED,
    ensures
        s@ == release_line(position as nat, *r),
{
    let mut s = String::from_str("`");
    if position < 10 {
        push_char(&mut s, ' ');
    }
    push_decimal(&mut s, position as u64);
    s.append("` **");
    let title = truncate(r.title.as_str(), 80);
    s.append(title.as_str());
    s.append("**\n     ");
    let size = format_decimal_size(r.size);
    s.append(size.as_str());
    s.append(" · 🌱 ");
    push_decimal(&mut s, seeder_count(r) as u64);
    s.append(" · ");
    s.append(r.indexer.as_str());
    assert(s@ =~= release_line(position as nat, *r));
    s
}

/// The results of a search, best first, with the overflow announced.
pub fn results_embed(query: &str, results: &[Release], lang: Lang) -> (e: Embed)
    ensures
        e.title@ == "📚 "@ + query@,
        e.description@ == results_description(results@, lang),
        e.colour == BLUE,
        e.fields@.len() == 0,
{
    let n = results.len();
    let shown: usize = if n < LISTED { n } else { LISTED };
    let ghost lines = release_lines(results@.take(shown as int));
    let mut description = String::new();
    let mut i: usize = 0;
    while i < shown
        invariant
            shown <= LISTED,
            shown <= results@.len(),
            i <= shown,
            lines == release_lines(results@.take(shown as int)),
            description@ == joined(lines.take(i as int), "\n"@),
        decreases shown - i,
    {
        if i > 0 {
            description.append("\n");
        }
        let line = release_entry(i + 1, &results[i]);
        description.append(line.as_str());
        i = i + 1;
        assert(lines.take(i as int).drop_last() =~= lines.take(i - 1));
        assert(lines[i - 1] == release_line(i as nat, results@[i - 1]));
        assert(description@ =~= joined(lines.take(i as int), "\n"@));
    }
    assert(lines.take(i as int) =~= lines);
    let hidden = n - shown;
    if hidden > 0 {
        let footer = lang.more_in_menu(hidden);
        description.append(footer.as_str());
    }
    let mut title = String::from_str("📚 ");
    title.append(query);
    Embed { title, description, colour: BLUE, fields: Vec::new() }
}

/// The same listing, greyed once the menu has expired.
pub fn expired_embed(query: &str, results: &[Release], lang: Lang) -> (e: Embed)
    ensures
        e.title@ == "📚 "@ + query@,
        e.description@ == results_description(results@, lang),
        e.colour == GREY,
        e.fields@.len() == 0,
{
    let mut e = results_embed(query, results, lang);
    e.colour = GREY;
    e
}


/// What a menu option shows.
pub open spec fn option_is(o: MenuOption, label: Seq<char>, value: Seq<char>, description: Seq<char>) -> bool {
    o.label@ == label && o.value@ == value && o.description@ == description
}

/// The menu option offering one release, keyed by its position.
pub open spec fn release_option_is(o: MenuOption, i: nat, r: Release, lang: Lang) -> bool {
    option_is(
        o,
        truncated(r.title@, LABEL_MAX as nat),
        decimal(i),
        truncated(release_summary_text(lang, decimal_size(r.size), seeds(r), r.indexer@), LABEL_MAX as nat),
    )
}

/// One menu option per release, keyed by its position in the list.
pub fn select_options(results: &[Release], lang: Lang) -> (r: Vec<MenuOption>)
    ensures
        r@.len() == results@.len(),
        forall|i: int| 0 <= i < r@.len() ==> release_option_is(#[trigger] r@[i], i as nat, results@[i], lang),
{
    let mut r: Vec<MenuOption> = Vec::new();
    let mut i: usize = 0;
    while i < results.len()
        invariant
            i <= results@.len(),
            r@.len() == i,
            forall|k: int| 0 <= k < i ==> release_option_is(#[trigger] r@[k], k as nat, results@[k], lang),
        decreases results@.len() - i,
    {
        let rel = &results[i];
        let size = format_decimal_size(rel.size);
        let summary = lang.release_summary(size.as_str(), seeder_count(rel), rel.indexer.as_str());
        let mut value = String::new();
        push_decimal(&mut value, i as u64);
        r.push(MenuOption {
            label: truncate(rel.title.as_str(), LABEL_MAX),
            value,
            description: truncate(summary.as_str(), LABEL_MAX),
        });
        i = i + 1;
    }
    r
}

/// The release a menu answer picks: its first value, read as a position.
/// Values come from Discord, so an unusable index is expected, not an invariant.
pub fn parse_selection<'a>(values: &[String], results: &'a [Release]) -> (r: Option<&'a Release>)
    ensures
        match (if values@.len() > 0 {
            parse_unsigned(values@[0]@, usize::MAX as nat)
        } else {
            None
        }) {
            Some(i) => if i < results@.len() {
                r == Some(&results@[i as int])
            } else {
                r is None
            },
            None => r is None,
        },
{
    if values.len() == 0 {
        return None;
    }
    let chars = chars_of(values[0].as_str());
    match parse_decimal(chars.as_slice(), usize::MAX as u64) {
        Some(i) => {
            if (i as usize) < results.len() {
                Some(&results[i as usize])
            } else {
                None
            }
        },
        None => None,
    }
}

/// The confirmation of a download sent to qBittorrent: its title, the
/// category, where it lands and its size.
pub open spec fn is_added_embed(
    e: Embed,
    release: Release,
    category: Seq<char>,
    save_path: Seq<char>,
    lang: Lang,
) -> bool {
    &&& e.title@ == added_title_text(lang)
    &&& e.description@ == "**"@ + release.title@ + "**"@
    &&& e.colour == GREEN
    &&& e.fields@.len() == 3
    &&& field_is(e.fields@[0], field_category_text(lang), "`"@ + category + "`"@, true)
    &&& field_is(
        e.fields@[1],
        field_destination_text(lang),
        if save_path.len() == 0 {
            default_folder_text(lang)
        } else {
            "`"@ + save_path + "`"@
        },
        true,
    )
    &&& field_is(e.fields@[2], field_size_text(lang), decimal_size(release.size), true)
}

/// The confirmation of a download sent to qBittorrent.
pub fn added_embed(release: &Release, category: &str, save_path: &str, lang: Lang) -> (e: Embed)
    ensures
        is_added_embed(e, *release, category@, save_path@, lang),
{
    let mut description = String::from_str("**");
    description.append(release.title.as_str());
    description.append("**");
    let mut cat = String::from_str("`");
    cat.append(category);
    cat.append("`");
    let destination = if save_path.unicode_len() == 0 {
        String::from_str(lang.default_folder())
    } else {
        let mut d = String::from_str("`");
        d.append(save_path);
        d.append("`");
        d
    };
    let mut fields: Vec<EmbedField> = Vec::new();
    fields.push(field(lang.field_category(), cat, true));
    fields.push(field(lang.field_destination(), destination, true));
    fields.push(field(lang.field_size(), format_decimal_size(release.size), true));
    Embed {
        title: String::from_str(lang.added_title()),
        description,
        colour: GREEN,
        fields,
    }
}

/// The report of a download qBittorrent did not take, with the reason.
pub open spec fn is_failed_embed(e: Embed, release: Release, error: Seq<char>, lang: Lang) -> bool {
    &&& e.title@ == failed_title_text(lang)
    &&& e.description@ == "**"@ + release.title@ + "**\n```"@ + error + "```"@
    &&& e.colour == RED
    &&& e.fields@.len() == 0
}

/// The report of a download qBittorrent did not take.
pub fn failed_embed(release: &Release, error: &str, lang: Lang) -> (e: Embed)
    ensures
        is_failed_embed(e, *release, error@, lang),
{
    let mut description = String::from_str("**");
    description.append(release.title.as_str());
    description.append("**\n```");
    description.append(error);
    description.append("```");
    Embed {
        title: String::from_str(lang.failed_title()),
        description,
        colour: RED,
        fields: Vec::new(),
    }
}

/// Where downloads of a category land, flagging the two cases that silently
/// write to the wrong place: a category with no save path, and a missing one.
pub open spec fn destination_text(categories: Seq<(String, Category)>, category: Seq<char>, lang: Lang) -> Seq<char> {
    match category_named(categories, category) {
        Some(c) => if c.save_path@.len() > 0 {
            "`"@ + c.save_path@ + "`"@
        } else {
            no_save_path_text(lang)
        },
        None => category_missing_text(lang, category),
    }
}

pub fn destination_label(categories: &[(String, Category)], category: &str, lang: Lang) -> (s: String)
    requires
        distinct_names(categories@),
    ensures
        s@ == destination_text(categories@, category@, lang),
{
    match find_category(categories, category) {
        Some(c) => {
            if c.save_path.as_str().unicode_len() > 0 {
                let mut s = String::from_str("`");
                s.append(c.save_path.as_str());
                s.append("`");
                s
            } else {
                String::from_str(lang.no_save_path())
            }
        },
        None => lang.category_missing(category),
    }
}

/// Offered when a search comes back empty, so the user can leave it running.
pub fn watch_button(custom_id: &str, lang: Lang) -> (b: Button)
    ensures
        b.custom_id@ == custom_id@,
        b.label@ == watch_button_text(lang),
        b.emoji == '🔔',
{
    Button {
        custom_id: String::from_str(custom_id),
        label: String::from_str(lang.watch_button()),
        emoji: '🔔',
    }
}

/// Whole days left before a watch expires, rounded up so a watch with a few
/// hours left still reads as one day rather than as zero; never negative.
pub open spec fn days_remaining(created_at: int, now: int, max_age: int) -> int {
    let remaining = if created_at + max_age - now > 0 { created_at + max_age - now } else { 0 };
    (remaining + SECONDS_PER_DAY as int - 1) / (SECONDS_PER_DAY as int)
}

/// The arithmetic of [`days_left`] stays within `i64`.
pub open spec fn days_left_computable(created_at: i64, now: i64, max_age: i64) -> bool {
    &&& i64::MIN <= created_at + max_age <= i64::MAX
    &&& i64::MIN <= created_at + max_age - now <= i64::MAX - SECONDS_PER_DAY
}

pub fn days_left(watch: &Watch, now: i64, max_age: i64) -> (d: i64)
    requires
        days_left_computable(watch.created_at, now, max_age),
    ensures
        d == days_remaining(watch.created_at as int, now as int, max_age as int),
{
    let raw = watch.created_at + max_age - now;
    let remaining = if raw > 0 { raw } else { 0 };
    (remaining + SECONDS_PER_DAY - 1) / SECONDS_PER_DAY
}

/// How one watch reads in the listing: its query, then its progress, or a
/// note that it was found and waits for the download.
pub open spec fn watch_line(w: Watch, now: i64, max_age: i64, lang: Lang) -> Seq<char> {
    "**"@ + truncated(w.query@, 80) + "**\n     "@ + if w.notified_at is Some {
        "🔔 "@ + watchlist_waiting_text(lang)
    } else {
        watchlist_entry_text(
            lang,
            w.checks as nat,
            days_remaining(w.created_at as int, now as int, max_age as int),
        )
    }
}

/// The body of a watch listing.
pub open spec fn watchlist_description(watches: Seq<Watch>, now: i64, max_age: i64, lang: Lang) -> Seq<char> {
    if watches.len() == 0 {
        watchlist_empty_text(lang)
    } else {
        joined(Seq::new(watches.len(), |i: int| watch_line(watches[i], now, max_age, lang)), "\n"@)
    }
}

fn watch_entry(w: &Watch, now: i64, max_age: i64, lang: Lang) -> (s: String)
    requires
        days_left_computable(w.created_at, now, max_age),
    ensures
        s@ == watch_line(*w, now, max_age, lang),
{
    let mut s = String::from_str("**");
    let q = truncate(w.query.as_str(), 80);
    s.append(q.as_str());
    s.append("**\n     ");
    if w.notified_at.is_some() {
        s.append("🔔 ");
        s.append(lang.watchlist_waiting());
    } else {
        let e = lang.watchlist_entry(w.checks, days_left(w, now, max_age));
        s.append(e.as_str());
    }
    s
}

/// The standing searches of a user: grey with an explanation when there are none.
pub fn watchlist_embed(watches: &[Watch], now: i64, max_age: i64, lang: Lang) -> (e: Embed)
    requires
        forall|i: int|
            0 <= i < watches@.len() ==> days_left_computable(
                (#[trigger] watches@[i]).created_at,
                now,
                max_age,
            ),
    ensures
        e.title@ == watchlist_title_text(lang),
        e.description@ == watchlist_description(watches@, now, max_age, lang),
        e.colour == (if watches@.len() == 0 { GREY } else { BLUE }),
        e.fields@.len() == 0,
{
    let title = String::from_str(lang.watchlist_title());
    if watches.len() == 0 {
        return Embed {
            title,
            description: String::from_str(lang.watchlist_empty()),
            colour: GREY,
            fields: Vec::new(),
        };
    }
    let ghost lines = Seq::new(watches@.len(), |i: int| watch_line(watches@[i], now, max_age, lang));
    let mut description = String::new();
    let mut i: usize = 0;
    while i < watches.len()
        invariant
            i <= watches@.len(),
            lines == Seq::new(watches@.len(), |i: int| watch_line(watches@[i], now, max_age, lang)),
            forall|k: int|
                0 <= k < watches@.len() ==> days_left_computable(
                    (#[trigger] watches@[k]).created_at,
                    now,
                    max_age,
                ),
            description@ == joined(lines.take(i as int), "\n"@),
        decreases watches@.len() - i,
    {
        if i > 0 {
            description.append("\n");
        }
        let line = watch_entry(&watches[i], now, max_age, lang);
        description.append(line.as_str());
        i = i + 1;
        assert(lines.take(i as int).drop_last() =~= lines.take(i - 1));
        assert(description@ =~= joined(lines.take(i as int), "\n"@));
    }
    assert(lines.take(i as int) =~= lines);
    Embed { title, description, colour: BLUE, fields: Vec::new() }
}

/// The menu option offering to stop one watch, keyed by its id.
pub open spec fn watch_option_is(o: MenuOption, w: Watch, lang: Lang) -> bool {
    option_is(
        o,
        truncated(w.query@, LABEL_MAX as nat),
        decimal(w.id as nat),
        truncated(watchlist_entry_text(lang, w.checks as nat, 0), LABEL_MAX as nat),
    )
}

pub fn watchlist_options(watches: &[Watch], lang: Lang) -> (r: Vec<MenuOption>)
    ensures
        r@.len() == watches@.len(),
        forall|i: int| 0 <= i < r@.len() ==> watch_option_is(#[trigger] r@[i], watches@[i], lang),
{
    let mut r: Vec<MenuOption> = Vec::new();
    let mut i: usize = 0;
    while i < watches.len()
        invariant
            i <= watches@.len(),
            r@.len() == i,
            forall|k: int| 0 <= k < i ==> watch_option_is(#[trigger] r@[k], watches@[k], lang),
        decreases watches@.len() - i,
    {
        let w = &watches[i];
        let mut value = String::new();
        push_decimal(&mut value, w.id);
        let entry = lang.watchlist_entry(w.checks, 0);
        r.push(MenuOption {
            label: truncate(w.query.as_str(), LABEL_MAX),
            value,
            description: truncate(entry.as_str(), LABEL_MAX),
        });
        i = i + 1;
    }
    r
}

/// How a service's answer reads in the status embed.
pub open spec fn status_line(label: Seq<char>, answer: Result<String, String>) -> Seq<char> {
    match answer {
        Ok(v) => "✅ **"@ + label + "** — "@ + trim(v@),
        Err(e) => "❌ **"@ + label + "** — "@ + e@,
    }
}

fn status_entry(label: &str, answer: &Result<String, String>) -> (s: String)
    ensures
        s@ == status_line(label@, *answer),
{
    match answer {
        Ok(v) => {
            let mut s = String::from_str("✅ **");
            s.append(label);
            s.append("** — ");
            let t = trim_str(v.as_str());
            s.append(t.as_str());
            s
        },
        Err(e) => {
            let mut s = String::from_str("❌ **");
            s.append(label);
            s.append("** — ");
            s.append(e.as_str());
            s
        },
    }
}

/// Whether both services answer, with what they said or why they did not,
/// and where downloads land. Green only when both answer.
pub fn status_embed(
    prowlarr: &Result<String, String>,
    qbit: &Result<String, String>,
    category: &str,
    destination: &str,
    lang: Lang,
) -> (e: Embed)
    ensures
        e.title@ == status_title_text(lang),
        e.description@ == status_line("Prowlarr"@, *prowlarr) + "\n"@ + status_line(
            "qBittorrent"@,
            *qbit,
        ),
        e.colour == (if prowlarr is Ok && qbit is Ok { GREEN } else { RED }),
        e.fields@.len() == 2,
        field_is(e.fields@[0], field_category_text(lang), "`"@ + category@ + "`"@, true),
        field_is(e.fields@[1], field_destination_text(lang), destination@, true),
{
    let mut description = status_entry("Prowlarr", prowlarr);
    description.append("\n");
    let q = status_entry("qBittorrent", qbit);
    description.append(q.as_str());
    let mut cat = String::from_str("`");
    cat.append(category);
    cat.append("`");
    let mut fields: Vec<EmbedField> = Vec::new();
    fields.push(field(lang.field_category(), cat, true));
    fields.push(field(lang.field_destination(), String::from_str(destination), true));
    Embed {
        title: String::from_str(lang.status_title()),
        description,
        colour: if prowlarr.is_ok() && qbit.is_ok() { GREEN } else { RED },
        fields,
    }
}

/// Among categories keyed by distinct names, where a category lands is read
/// from the entry filed under its name, wherever it stands in the list; the
/// missing-category warning is given only when no entry has that name.
pub proof fn the_destination_is_read_from_the_category_named(
    categories: Seq<(String, Category)>,
    category: Seq<char>,
    lang: Lang,
)
    requires
        distinct_names(categories),
    ensures
        forall|i: int|
            0 <= i < categories.len() && (#[trigger] categories[i]).0@ == category ==> destination_text(
                categories,
                category,
                lang,
            ) == if categories[i].1.save_path@.len() > 0 {
                "`"@ + categories[i].1.save_path@ + "`"@
            } else {
                no_save_path_text(lang)
            },
        (forall|i: int| 0 <= i < categories.len() ==> (#[trigger] categories[i]).0@ != category)
            ==> destination_text(categories, category, lang) == category_missing_text(lang, category),
{
    assert forall|i: int|
        0 <= i < categories.len() && (#[trigger] categories[i]).0@ == category implies destination_text(
            categories,
            category,
            lang,
        ) == if categories[i].1.save_path@.len() > 0 {
            "`"@ + categories[i].1.save_path@ + "`"@
        } else {
            no_save_path_text(lang)
        } by {
        crate::qbittorrent::a_category_is_found_by_its_name(categories, i);
    }
    if forall|i: int| 0 <= i < categories.len() ==> (#[trigger] categories[i]).0@ != category {
        crate::qbittorrent::lemma_no_category_named(categories, category);
    }
}

} // verus!

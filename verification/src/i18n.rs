//! Every string a Discord user reads, in English and in French. Operator
//! logs and errors stay in English and do not belong here.

use crate::text::{
    chars_are,
    ascii_lowercase, chars_of, lowercase_chars, push_decimal, push_signed_decimal, starts_with,
    str_starts_with, string_of, trim, trim_chars, decimal, signed_decimal, contains,
};
use vstd::prelude::*;
use vstd::string::*;

verus! {

/// A language the bot answers in.
#[derive(Debug, Clone, Copy, PartialEq, Eq, Structural)]
pub enum Lang {
    En,
    Fr,
}

impl std::str::FromStr for Lang {
    type Err = String;

    fn from_str(s: &str) -> (r: Result<Lang, String>)
        ensures
            match lang_named(normalised_name(s@)) {
                Some(l) => r == Ok::<Lang, String>(l),
                None => r matches Err(e) && e@ == "unsupported language: "@ + normalised_name(
                    s@,
                ) + " (expected `en` or `fr`)"@,
            },
    {
        Lang::parse_name(s)
    }
}

impl Default for Lang {
    fn default() -> (l: Lang)
        ensures
            l == Lang::En,
    {
        Lang::En
    }
}

/// The language a user-written name designates, after trimming and ASCII
/// lower-casing, or `None` for a name not understood.
pub open spec fn lang_named(name: Seq<char>) -> Option<Lang> {
    if name == "en"@ || name == "en-us"@ || name == "en-gb"@ || name == "english"@ {
        Some(Lang::En)
    } else if name == "fr"@ || name == "fr-fr"@ || name == "french"@ || name == "francais"@
        || name == "français"@ {
        Some(Lang::Fr)
    } else {
        None
    }
}

/// How a text is normalised before it is read as a language name.
pub open spec fn normalised_name(s: Seq<char>) -> Seq<char> {
    ascii_lowercase(trim(s))
}

/// The text of [`Lang::menu_placeholder`].
pub open spec fn menu_placeholder_text(lang: Lang) -> Seq<char> {
    match lang {
        Lang::En => "Pick a release to download"@,
        Lang::Fr => "Choisis le fichier à télécharger"@,
    }
}

/// The text of [`Lang::selection_timed_out`].
pub open spec fn selection_timed_out_text(lang: Lang) -> Seq<char> {
    match lang {
        Lang::En => "⏱️ Selection timed out."@,
        Lang::Fr => "⏱️ Sélection expirée."@,
    }
}

/// The text of [`Lang::invalid_selection`].
pub open spec fn invalid_selection_text(lang: Lang) -> Seq<char> {
    match lang {
        Lang::En => "Invalid selection."@,
        Lang::Fr => "Sélection invalide."@,
    }
}

/// The text of [`Lang::added_title`].
pub open spec fn added_title_text(lang: Lang) -> Seq<char> {
    match lang {
        Lang::En => "📥 Sent to qBittorrent"@,
        Lang::Fr => "📥 Envoyé à qBittorrent"@,
    }
}

/// The text of [`Lang::failed_title`].
pub open spec fn failed_title_text(lang: Lang) -> Seq<char> {
    match lang {
        Lang::En => "❌ Could not add the download"@,
        Lang::Fr => "❌ Échec de l'ajout"@,
    }
}

/// The text of [`Lang::status_title`].
pub open spec fn status_title_text(lang: Lang) -> Seq<char> {
    match lang {
        Lang::En => "Service status"@,
        Lang::Fr => "État des services"@,
    }
}

/// The text of [`Lang::field_category`].
pub open spec fn field_category_text(lang: Lang) -> Seq<char> {
    match lang {
        Lang::En => "Category"@,
        Lang::Fr => "Catégorie"@,
    }
}

/// The text of [`Lang::field_destination`].
pub open spec fn field_destination_text(lang: Lang) -> Seq<char> {
    match lang {
        Lang::En => "Destination"@,
        Lang::Fr => "Destination"@,
    }
}

/// The text of [`Lang::field_size`].
pub open spec fn field_size_text(lang: Lang) -> Seq<char> {
    match lang {
        Lang::En => "Size"@,
        Lang::Fr => "Taille"@,
    }
}

/// The text of [`Lang::default_folder`].
pub open spec fn default_folder_text(lang: Lang) -> Seq<char> {
    match lang {
        Lang::En => "qBittorrent default folder"@,
        Lang::Fr => "dossier par défaut de qBittorrent"@,
    }
}

/// The text of [`Lang::no_save_path`].
pub open spec fn no_save_path_text(lang: Lang) -> Seq<char> {
    match lang {
        Lang::En => "⚠️ no save path set (qBittorrent default folder)"@,
        Lang::Fr => "⚠️ aucun chemin configuré (dossier par défaut de qBittorrent)"@,
    }
}

/// The text of [`Lang::watch_button`].
pub open spec fn watch_button_text(lang: Lang) -> Seq<char> {
    match lang {
        Lang::En => "Tell me when it shows up"@,
        Lang::Fr => "Me prévenir quand il arrive"@,
    }
}

/// Shown in the listing for a watch whose book has already been found.
pub open spec fn watchlist_waiting_text(lang: Lang) -> Seq<char> {
    match lang {
        Lang::En => "found · waiting for your download"@,
        Lang::Fr => "trouvé · en attente de téléchargement"@,
    }
}

/// The text of [`Lang::watchlist_title`].
pub open spec fn watchlist_title_text(lang: Lang) -> Seq<char> {
    match lang {
        Lang::En => "Your standing searches"@,
        Lang::Fr => "Tes recherches en cours"@,
    }
}

/// The text of [`Lang::watchlist_empty`].
pub open spec fn watchlist_empty_text(lang: Lang) -> Seq<char> {
    match lang {
        Lang::En => "You have no standing search. Run a search that finds nothing to start one."@,
        Lang::Fr => "Tu n'as aucune recherche en cours. Lances-en une qui ne trouve rien pour en créer une."@,
    }
}

/// The text of [`Lang::watchlist_admin_title`].
pub open spec fn watchlist_admin_title_text(lang: Lang) -> Seq<char> {
    match lang {
        Lang::En => "All standing searches"@,
        Lang::Fr => "Toutes les recherches en cours"@,
    }
}

/// The text of [`Lang::watchlist_admin_empty`].
pub open spec fn watchlist_admin_empty_text(lang: Lang) -> Seq<char> {
    match lang {
        Lang::En => "Nobody on this server has a standing search."@,
        Lang::Fr => "Personne sur ce serveur n'a de recherche en cours."@,
    }
}

/// The text of [`Lang::watchlist_placeholder`].
pub open spec fn watchlist_placeholder_text(lang: Lang) -> Seq<char> {
    match lang {
        Lang::En => "Pick a search to stop"@,
        Lang::Fr => "Choisis une recherche à arrêter"@,
    }
}

/// The text of [`Lang::no_results`].
pub open spec fn no_results_text(lang: Lang, query: Seq<char>) -> Seq<char> {
    match lang {
        Lang::En => "No result for **"@ + query + "**."@,
        Lang::Fr => "Aucun résultat pour **"@ + query + "**."@,
    }
}

/// The text of [`Lang::more_in_menu`].
pub open spec fn more_in_menu_text(lang: Lang, hidden: nat) -> Seq<char> {
    match lang {
        Lang::En => "\n\n_…and "@ + decimal(hidden) + " more in the menu below._"@,
        Lang::Fr => "\n\n_…et "@ + decimal(hidden) + " autre(s) dans le menu ci-dessous._"@,
    }
}

/// The text of [`Lang::release_summary`].
pub open spec fn release_summary_text(lang: Lang, size: Seq<char>, seeders: nat, indexer: Seq<char>) -> Seq<char> {
    match lang {
        Lang::En => size + " · "@ + decimal(seeders) + " seeders · "@ + indexer,
        Lang::Fr => size + " · "@ + decimal(seeders) + " sources · "@ + indexer,
    }
}

/// The text of [`Lang::watch_created`].
pub open spec fn watch_created_text(lang: Lang, query: Seq<char>, per_day: nat, days: int) -> Seq<char> {
    match lang {
        Lang::En => "Watching **"@ + query + "**. I will look "@ + decimal(per_day) + " times a day and post here as soon as something turns up, or give up after "@ + signed_decimal(days) + " days."@,
        Lang::Fr => "Je surveille **"@ + query + "**. Je chercherai "@ + decimal(per_day) + " fois par jour et je poste ici dès que quelque chose sort, sinon j'abandonne au bout de "@ + signed_decimal(days) + " jours."@,
    }
}

/// The text of [`Lang::watch_already`].
pub open spec fn watch_already_text(lang: Lang, query: Seq<char>) -> Seq<char> {
    match lang {
        Lang::En => "You are already watching **"@ + query + "**."@,
        Lang::Fr => "Tu surveilles déjà **"@ + query + "**."@,
    }
}

/// The text of [`Lang::watch_too_many`].
pub open spec fn watch_too_many_text(lang: Lang, max: nat) -> Seq<char> {
    match lang {
        Lang::En => "You already have "@ + decimal(max) + " searches running. Stop one with `/watchlist`."@,
        Lang::Fr => "Tu as déjà "@ + decimal(max) + " recherches en cours. Arrêtes-en une avec `/watchlist`."@,
    }
}

/// The text of [`Lang::watch_found`].
pub open spec fn watch_found_text(lang: Lang, query: Seq<char>) -> Seq<char> {
    match lang {
        Lang::En => "**"@ + query + "** turned up. Run the search again to download it — I will drop it from your watchlist once you do."@,
        Lang::Fr => "**"@ + query + "** est sorti. Relance la recherche pour le télécharger — je le retirerai de tes veilles à ce moment-là."@,
    }
}

/// The text of [`Lang::watch_fulfilled`].
pub open spec fn watch_fulfilled_text(lang: Lang, query: Seq<char>) -> Seq<char> {
    match lang {
        Lang::En => "Removed **"@ + query + "** from your watchlist."@,
        Lang::Fr => "J'ai retiré **"@ + query + "** de tes veilles."@,
    }
}

/// The text of [`Lang::watch_gave_up`].
pub open spec fn watch_gave_up_text(lang: Lang, query: Seq<char>, days: int) -> Seq<char> {
    match lang {
        Lang::En => "Gave up on **"@ + query + "**: nothing turned up in "@ + signed_decimal(days) + " days."@,
        Lang::Fr => "J'abandonne **"@ + query + "** : rien n'est sorti en "@ + signed_decimal(days) + " jours."@,
    }
}

/// The text of [`Lang::watchlist_entry`].
pub open spec fn watchlist_entry_text(lang: Lang, checks: nat, days_left: int) -> Seq<char> {
    match lang {
        Lang::En => "checked "@ + decimal(checks) + " times · "@ + signed_decimal(days_left) + " days left"@,
        Lang::Fr => "vérifiée "@ + decimal(checks) + " fois · encore "@ + signed_decimal(days_left) + " jours"@,
    }
}

/// Discord does not render mentions inside a select menu option, so the
/// moderator view falls back to the raw id there.
pub open spec fn watchlist_owner_text(lang: Lang, user_id: nat) -> Seq<char> {
    match lang {
        Lang::En => "owner "@ + decimal(user_id),
        Lang::Fr => "propriétaire "@ + decimal(user_id),
    }
}

/// The text of [`Lang::watchlist_more`].
pub open spec fn watchlist_more_text(lang: Lang, hidden: nat) -> Seq<char> {
    match lang {
        Lang::En => "\n\n_…and "@ + decimal(hidden) + " more, not shown._"@,
        Lang::Fr => "\n\n_…et "@ + decimal(hidden) + " autre(s), non affichée(s)._"@,
    }
}

/// The text of [`Lang::watch_stopped_for`].
pub open spec fn watch_stopped_for_text(lang: Lang, query: Seq<char>, user_id: nat) -> Seq<char> {
    match lang {
        Lang::En => "Stopped **"@ + query + "** for <@"@ + decimal(user_id) + ">."@,
        Lang::Fr => "J'ai arrêté **"@ + query + "** pour <@"@ + decimal(user_id) + ">."@,
    }
}

/// The text of [`Lang::watch_stopped`].
pub open spec fn watch_stopped_text(lang: Lang, query: Seq<char>) -> Seq<char> {
    match lang {
        Lang::En => "Stopped watching **"@ + query + "**."@,
        Lang::Fr => "J'arrête de surveiller **"@ + query + "**."@,
    }
}

/// The text of [`Lang::category_missing`].
pub open spec fn category_missing_text(lang: Lang, category: Seq<char>) -> Seq<char> {
    match lang {
        Lang::En => "⚠️ category `"@ + category + "` does not exist in qBittorrent"@,
        Lang::Fr => "⚠️ catégorie `"@ + category + "` absente de qBittorrent"@,
    }
}

impl Lang {
    /// `en-US`, `fr`… anything else falls back to `default`.
    pub fn from_locale(locale: Option<&str>, default: Lang) -> (l: Lang)
        ensures
            l == (match locale {
                Some(s) => if starts_with(s@, "fr"@) {
                    Lang::Fr
                } else if starts_with(s@, "en"@) {
                    Lang::En
                } else {
                    default
                },
                None => default,
            }),
    {
        match locale {
            Some(l) => {
                if str_starts_with(l, "fr") {
                    Lang::Fr
                } else if str_starts_with(l, "en") {
                    Lang::En
                } else {
                    default
                }
            },
            None => default,
        }
    }

    /// Reads a language name as a user would write it in the configuration.
    pub fn parse_name(s: &str) -> (r: Result<Lang, String>)
        ensures
            match lang_named(normalised_name(s@)) {
                Some(l) => r == Ok::<Lang, String>(l),
                None => r matches Err(e) && e@ == "unsupported language: "@ + normalised_name(
                    s@,
                ) + " (expected `en` or `fr`)"@,
            },
    {
        let chars = chars_of(s);
        let trimmed = trim_chars(chars.as_slice());
        let name = lowercase_chars(trimmed.as_slice());
        let n = name.as_slice();
        if chars_are(n, "en") || chars_are(n, "en-us") || chars_are(n, "en-gb") || chars_are(
            n,
            "english",
        ) {
            Ok(Lang::En)
        } else if chars_are(n, "fr") || chars_are(n, "fr-fr") || chars_are(n, "french")
            || chars_are(n, "francais") || chars_are(n, "français") {
            Ok(Lang::Fr)
        } else {
            let mut e = String::from_str("unsupported language: ");
            let other = string_of(n);
            e.append(other.as_str());
            e.append(" (expected `en` or `fr`)");
            Err(e)
        }
    }

    /// The language's code, as it is written in configuration and storage.
    pub fn code(self) -> (c: &'static str)
        ensures
            c@ == (match self {
                Lang::En => "en"@,
                Lang::Fr => "fr"@,
            }),
    {
        match self {
            Lang::En => "en",
            Lang::Fr => "fr",
        }
    }

    /// The language's code as an owned string.
    pub fn to_string(&self) -> (s: String)
        ensures
            s@ == (match *self {
                Lang::En => "en"@,
                Lang::Fr => "fr"@,
            }),
    {
        String::from_str(self.code())
    }

    pub fn menu_placeholder(self) -> (s: &'static str)
        ensures
            s@ == menu_placeholder_text(self),
    {
        self.pick("Pick a release to download", "Choisis le fichier à télécharger")
    }

    pub fn selection_timed_out(self) -> (s: &'static str)
        ensures
            s@ == selection_timed_out_text(self),
    {
        self.pick("⏱️ Selection timed out.", "⏱️ Sélection expirée.")
    }

    pub fn invalid_selection(self) -> (s: &'static str)
        ensures
            s@ == invalid_selection_text(self),
    {
        self.pick("Invalid selection.", "Sélection invalide.")
    }

    pub fn added_title(self) -> (s: &'static str)
        ensures
            s@ == added_title_text(self),
    {
        self.pick("📥 Sent to qBittorrent", "📥 Envoyé à qBittorrent")
    }

    pub fn failed_title(self) -> (s: &'static str)
        ensures
            s@ == failed_title_text(self),
    {
        self.pick("❌ Could not add the download", "❌ Échec de l'ajout")
    }

    pub fn status_title(self) -> (s: &'static str)
        ensures
            s@ == status_title_text(self),
    {
        self.pick("Service status", "État des services")
    }

    pub fn field_category(self) -> (s: &'static str)
        ensures
            s@ == field_category_text(self),
    {
        self.pick("Category", "Catégorie")
    }

    pub fn field_destination(self) -> (s: &'static str)
        ensures
            s@ == field_destination_text(self),
    {
        self.pick("Destination", "Destination")
    }

    pub fn field_size(self) -> (s: &'static str)
        ensures
            s@ == field_size_text(self),
    {
        self.pick("Size", "Taille")
    }

    pub fn default_folder(self) -> (s: &'static str)
        ensures
            s@ == default_folder_text(self),
    {
        self.pick("qBittorrent default folder", "dossier par défaut de qBittorrent")
    }

    pub fn no_save_path(self) -> (s: &'static str)
        ensures
            s@ == no_save_path_text(self),
    {
        self.pick("⚠️ no save path set (qBittorrent default folder)", "⚠️ aucun chemin configuré (dossier par défaut de qBittorrent)")
    }

    pub fn watch_button(self) -> (s: &'static str)
        ensures
            s@ == watch_button_text(self),
    {
        self.pick("Tell me when it shows up", "Me prévenir quand il arrive")
    }

    pub fn watchlist_waiting(self) -> (s: &'static str)
        ensures
            s@ == watchlist_waiting_text(self),
    {
        self.pick("found · waiting for your download", "trouvé · en attente de téléchargement")
    }

    pub fn watchlist_title(self) -> (s: &'static str)
        ensures
            s@ == watchlist_title_text(self),
    {
        self.pick("Your standing searches", "Tes recherches en cours")
    }

    pub fn watchlist_empty(self) -> (s: &'static str)
        ensures
            s@ == watchlist_empty_text(self),
    {
        self.pick("You have no standing search. Run a search that finds nothing to start one.", "Tu n'as aucune recherche en cours. Lances-en une qui ne trouve rien pour en créer une.")
    }

    pub fn watchlist_admin_title(self) -> (s: &'static str)
        ensures
            s@ == watchlist_admin_title_text(self),
    {
        self.pick("All standing searches", "Toutes les recherches en cours")
    }

    pub fn watchlist_admin_empty(self) -> (s: &'static str)
        ensures
            s@ == watchlist_admin_empty_text(self),
    {
        self.pick("Nobody on this server has a standing search.", "Personne sur ce serveur n'a de recherche en cours.")
    }

    pub fn watchlist_placeholder(self) -> (s: &'static str)
        ensures
            s@ == watchlist_placeholder_text(self),
    {
        self.pick("Pick a search to stop", "Choisis une recherche à arrêter")
    }

    pub fn no_results(self, query: &str) -> (s: String)
        ensures
            s@ == no_results_text(self, query@),
    {
        match self {
            Lang::En => {
                let mut s = String::from_str("No result for **");
                s.append(query);
                s.append("**.");
                s
            },
            Lang::Fr => {
                let mut s = String::from_str("Aucun résultat pour **");
                s.append(query);
                s.append("**.");
                s
            },
        }
    }

    pub fn more_in_menu(self, hidden: usize) -> (s: String)
        ensures
            s@ == more_in_menu_text(self, hidden as nat),
    {
        match self {
            Lang::En => {
                let mut s = String::from_str("\n\n_…and ");
                push_decimal(&mut s, hidden as u64);
                s.append(" more in the menu below._");
                s
            },
            Lang::Fr => {
                let mut s = String::from_str("\n\n_…et ");
                push_decimal(&mut s, hidden as u64);
                s.append(" autre(s) dans le menu ci-dessous._");
                s
            },
        }
    }

    pub fn release_summary(self, size: &str, seeders: u32, indexer: &str) -> (s: String)
        ensures
            s@ == release_summary_text(self, size@, seeders as nat, indexer@),
    {
        match self {
            Lang::En => {
                let mut s = String::new();
                s.append(size);
                s.append(" · ");
                push_decimal(&mut s, seeders as u64);
                s.append(" seeders · ");
                s.append(indexer);
                s
            },
            Lang::Fr => {
                let mut s = String::new();
                s.append(size);
                s.append(" · ");
                push_decimal(&mut s, seeders as u64);
                s.append(" sources · ");
                s.append(indexer);
                s
            },
        }
    }

    pub fn watch_created(self, query: &str, per_day: u32, days: i64) -> (s: String)
        ensures
            s@ == watch_created_text(self, query@, per_day as nat, days as int),
    {
        match self {
            Lang::En => {
                let mut s = String::from_str("Watching **");
                s.append(query);
                s.append("**. I will look ");
                push_decimal(&mut s, per_day as u64);
                s.append(" times a day and post here as soon as something turns up, or give up after ");
                push_signed_decimal(&mut s, days);
                s.append(" days.");
                s
            },
            Lang::Fr => {
                let mut s = String::from_str("Je surveille **");
                s.append(query);
                s.append("**. Je chercherai ");
                push_decimal(&mut s, per_day as u64);
                s.append(" fois par jour et je poste ici dès que quelque chose sort, sinon j'abandonne au bout de ");
                push_signed_decimal(&mut s, days);
                s.append(" jours.");
                s
            },
        }
    }

    pub fn watch_already(self, query: &str) -> (s: String)
        ensures
            s@ == watch_already_text(self, query@),
    {
        match self {
            Lang::En => {
                let mut s = String::from_str("You are already watching **");
                s.append(query);
                s.append("**.");
                s
            },
            Lang::Fr => {
                let mut s = String::from_str("Tu surveilles déjà **");
                s.append(query);
                s.append("**.");
                s
            },
        }
    }

    pub fn watch_too_many(self, max: usize) -> (s: String)
        ensures
            s@ == watch_too_many_text(self, max as nat),
    {
        match self {
            Lang::En => {
                let mut s = String::from_str("You already have ");
                push_decimal(&mut s, max as u64);
                s.append(" searches running. Stop one with `/watchlist`.");
                s
            },
            Lang::Fr => {
                let mut s = String::from_str("Tu as déjà ");
                push_decimal(&mut s, max as u64);
                s.append(" recherches en cours. Arrêtes-en une avec `/watchlist`.");
                s
            },
        }
    }

    pub fn watch_found(self, query: &str) -> (s: String)
        ensures
            s@ == watch_found_text(self, query@),
    {
        match self {
            Lang::En => {
                let mut s = String::from_str("**");
                s.append(query);
                s.append("** turned up. Run the search again to download it — I will drop it from your watchlist once you do.");
                s
            },
            Lang::Fr => {
                let mut s = String::from_str("**");
                s.append(query);
                s.append("** est sorti. Relance la recherche pour le télécharger — je le retirerai de tes veilles à ce moment-là.");
                s
            },
        }
    }

    pub fn watch_fulfilled(self, query: &str) -> (s: String)
        ensures
            s@ == watch_fulfilled_text(self, query@),
    {
        match self {
            Lang::En => {
                let mut s = String::from_str("Removed **");
                s.append(query);
                s.append("** from your watchlist.");
                s
            },
            Lang::Fr => {
                let mut s = String::from_str("J'ai retiré **");
                s.append(query);
                s.append("** de tes veilles.");
                s
            },
        }
    }

    pub fn watch_gave_up(self, query: &str, days: i64) -> (s: String)
        ensures
            s@ == watch_gave_up_text(self, query@, days as int),
    {
        match self {
            Lang::En => {
                let mut s = String::from_str("Gave up on **");
                s.append(query);
                s.append("**: nothing turned up in ");
                push_signed_decimal(&mut s, days);
                s.append(" days.");
                s
            },
            Lang::Fr => {
                let mut s = String::from_str("J'abandonne **");
                s.append(query);
                s.append("** : rien n'est sorti en ");
                push_signed_decimal(&mut s, days);
                s.append(" jours.");
                s
            },
        }
    }

    pub fn watchlist_entry(self, checks: u32, days_left: i64) -> (s: String)
        ensures
            s@ == watchlist_entry_text(self, checks as nat, days_left as int),
    {
        match self {
            Lang::En => {
                let mut s = String::from_str("checked ");
                push_decimal(&mut s, checks as u64);
                s.append(" times · ");
                push_signed_decimal(&mut s, days_left);
                s.append(" days left");
                s
            },
            Lang::Fr => {
                let mut s = String::from_str("vérifiée ");
                push_decimal(&mut s, checks as u64);
                s.append(" fois · encore ");
                push_signed_decimal(&mut s, days_left);
                s.append(" jours");
                s
            },
        }
    }

    pub fn watchlist_owner(self, user_id: u64) -> (s: String)
        ensures
            s@ == watchlist_owner_text(self, user_id as nat),
    {
        match self {
            Lang::En => {
                let mut s = String::from_str("owner ");
                push_decimal(&mut s, user_id as u64);
                s
            },
            Lang::Fr => {
                let mut s = String::from_str("propriétaire ");
                push_decimal(&mut s, user_id as u64);
                s
            },
        }
    }

    pub fn watchlist_more(self, hidden: usize) -> (s: String)
        ensures
            s@ == watchlist_more_text(self, hidden as nat),
    {
        match self {
            Lang::En => {
                let mut s = String::from_str("\n\n_…and ");
                push_decimal(&mut s, hidden as u64);
                s.append(" more, not shown._");
                s
            },
            Lang::Fr => {
                let mut s = String::from_str("\n\n_…et ");
                push_decimal(&mut s, hidden as u64);
                s.append(" autre(s), non affichée(s)._");
                s
            },
        }
    }

    pub fn watch_stopped_for(self, query: &str, user_id: u64) -> (s: String)
        ensures
            s@ == watch_stopped_for_text(self, query@, user_id as nat),
    {
        match self {
            Lang::En => {
                let mut s = String::from_str("Stopped **");
                s.append(query);
                s.append("** for <@");
                push_decimal(&mut s, user_id as u64);
                s.append(">.");
                s
            },
            Lang::Fr => {
                let mut s = String::from_str("J'ai arrêté **");
                s.append(query);
                s.append("** pour <@");
                push_decimal(&mut s, user_id as u64);
                s.append(">.");
                s
            },
        }
    }

    pub fn watch_stopped(self, query: &str) -> (s: String)
        ensures
            s@ == watch_stopped_text(self, query@),
    {
        match self {
            Lang::En => {
                let mut s = String::from_str("Stopped watching **");
                s.append(query);
                s.append("**.");
                s
            },
            Lang::Fr => {
                let mut s = String::from_str("J'arrête de surveiller **");
                s.append(query);
                s.append("**.");
                s
            },
        }
    }

    pub fn category_missing(self, category: &str) -> (s: String)
        ensures
            s@ == category_missing_text(self, category@),
    {
        match self {
            Lang::En => {
                let mut s = String::from_str("⚠️ category `");
                s.append(category);
                s.append("` does not exist in qBittorrent");
                s
            },
            Lang::Fr => {
                let mut s = String::from_str("⚠️ catégorie `");
                s.append(category);
                s.append("` absente de qBittorrent");
                s
            },
        }
    }

    fn pick(self, en: &'static str, fr: &'static str) -> (s: &'static str)
        ensures
            s == (match self {
                Lang::En => en,
                Lang::Fr => fr,
            }),
    {
        match self {
            Lang::En => en,
            Lang::Fr => fr,
        }
    }
}


/// Every message differs between the two languages, whatever is interpolated
/// into it: a message that silently fell back to English would read as a
/// bug to a French user. The field naming the destination is the one text
/// that is the same word in both.
pub proof fn every_message_differs_between_languages(q: Seq<char>, r: Seq<char>, n: nat, m: int)
    ensures
        menu_placeholder_text(Lang::En) != menu_placeholder_text(Lang::Fr),
        selection_timed_out_text(Lang::En) != selection_timed_out_text(Lang::Fr),
        invalid_selection_text(Lang::En) != invalid_selection_text(Lang::Fr),
        added_title_text(Lang::En) != added_title_text(Lang::Fr),
        failed_title_text(Lang::En) != failed_title_text(Lang::Fr),
        status_title_text(Lang::En) != status_title_text(Lang::Fr),
        field_category_text(Lang::En) != field_category_text(Lang::Fr),
        field_size_text(Lang::En) != field_size_text(Lang::Fr),
        default_folder_text(Lang::En) != default_folder_text(Lang::Fr),
        no_save_path_text(Lang::En) != no_save_path_text(Lang::Fr),
        watch_button_text(Lang::En) != watch_button_text(Lang::Fr),
        watchlist_waiting_text(Lang::En) != watchlist_waiting_text(Lang::Fr),
        watchlist_title_text(Lang::En) != watchlist_title_text(Lang::Fr),
        watchlist_empty_text(Lang::En) != watchlist_empty_text(Lang::Fr),
        watchlist_admin_title_text(Lang::En) != watchlist_admin_title_text(Lang::Fr),
        watchlist_admin_empty_text(Lang::En) != watchlist_admin_empty_text(Lang::Fr),
        watchlist_placeholder_text(Lang::En) != watchlist_placeholder_text(Lang::Fr),
        no_results_text(Lang::En, q) != no_results_text(Lang::Fr, q),
        more_in_menu_text(Lang::En, n) != more_in_menu_text(Lang::Fr, n),
        release_summary_text(Lang::En, q, n, r) != release_summary_text(Lang::Fr, q, n, r),
        watch_created_text(Lang::En, q, n, m) != watch_created_text(Lang::Fr, q, n, m),
        watch_already_text(Lang::En, q) != watch_already_text(Lang::Fr, q),
        watch_too_many_text(Lang::En, n) != watch_too_many_text(Lang::Fr, n),
        watch_found_text(Lang::En, q) != watch_found_text(Lang::Fr, q),
        watch_fulfilled_text(Lang::En, q) != watch_fulfilled_text(Lang::Fr, q),
        watch_gave_up_text(Lang::En, q, m) != watch_gave_up_text(Lang::Fr, q, m),
        watchlist_entry_text(Lang::En, n, m) != watchlist_entry_text(Lang::Fr, n, m),
        watchlist_owner_text(Lang::En, n) != watchlist_owner_text(Lang::Fr, n),
        watchlist_more_text(Lang::En, n) != watchlist_more_text(Lang::Fr, n),
        watch_stopped_for_text(Lang::En, q, n) != watch_stopped_for_text(Lang::Fr, q, n),
        watch_stopped_text(Lang::En, q) != watch_stopped_text(Lang::Fr, q),
        category_missing_text(Lang::En, q) != category_missing_text(Lang::Fr, q),
        field_destination_text(Lang::En) == field_destination_text(Lang::Fr),
{
    reveal_strlit("\n\n_…and ");
    reveal_strlit("\n\n_…et ");
    reveal_strlit(" seeders · ");
    reveal_strlit(" sources · ");
    reveal_strlit(" · ");
    reveal_strlit("**");
    reveal_strlit("** est sorti. Relance la recherche pour le télécharger — je le retirerai de tes veilles à ce moment-là.");
    reveal_strlit("** turned up. Run the search again to download it — I will drop it from your watchlist once you do.");
    reveal_strlit("All standing searches");
    reveal_strlit("Aucun résultat pour **");
    reveal_strlit("Category");
    reveal_strlit("Catégorie");
    reveal_strlit("Choisis le fichier à télécharger");
    reveal_strlit("Choisis une recherche à arrêter");
    reveal_strlit("Gave up on **");
    reveal_strlit("Invalid selection.");
    reveal_strlit("J'abandonne **");
    reveal_strlit("J'ai arrêté **");
    reveal_strlit("J'ai retiré **");
    reveal_strlit("J'arrête de surveiller **");
    reveal_strlit("Je surveille **");
    reveal_strlit("Me prévenir quand il arrive");
    reveal_strlit("No result for **");
    reveal_strlit("Nobody on this server has a standing search.");
    reveal_strlit("Personne sur ce serveur n'a de recherche en cours.");
    reveal_strlit("Pick a release to download");
    reveal_strlit("Pick a search to stop");
    reveal_strlit("Removed **");
    reveal_strlit("Service status");
    reveal_strlit("Size");
    reveal_strlit("Stopped **");
    reveal_strlit("Stopped watching **");
    reveal_strlit("Sélection invalide.");
    reveal_strlit("Taille");
    reveal_strlit("Tell me when it shows up");
    reveal_strlit("Tes recherches en cours");
    reveal_strlit("Toutes les recherches en cours");
    reveal_strlit("Tu as déjà ");
    reveal_strlit("Tu n'as aucune recherche en cours. Lances-en une qui ne trouve rien pour en créer une.");
    reveal_strlit("Tu surveilles déjà **");
    reveal_strlit("Watching **");
    reveal_strlit("You already have ");
    reveal_strlit("You are already watching **");
    reveal_strlit("You have no standing search. Run a search that finds nothing to start one.");
    reveal_strlit("Your standing searches");
    reveal_strlit("checked ");
    reveal_strlit("dossier par défaut de qBittorrent");
    reveal_strlit("found · waiting for your download");
    reveal_strlit("owner ");
    reveal_strlit("propriétaire ");
    reveal_strlit("qBittorrent default folder");
    reveal_strlit("trouvé · en attente de téléchargement");
    reveal_strlit("vérifiée ");
    reveal_strlit("État des services");
    reveal_strlit("⏱️ Selection timed out.");
    reveal_strlit("⏱️ Sélection expirée.");
    reveal_strlit("⚠️ aucun chemin configuré (dossier par défaut de qBittorrent)");
    reveal_strlit("⚠️ category `");
    reveal_strlit("⚠️ catégorie `");
    reveal_strlit("⚠️ no save path set (qBittorrent default folder)");
    reveal_strlit("❌ Could not add the download");
    reveal_strlit("❌ Échec de l'ajout");
    reveal_strlit("📥 Envoyé à qBittorrent");
    reveal_strlit("📥 Sent to qBittorrent");
    assert(menu_placeholder_text(Lang::En)[0] != menu_placeholder_text(Lang::Fr)[0]);
    assert(selection_timed_out_text(Lang::En)[4] != selection_timed_out_text(Lang::Fr)[4]);
    assert(invalid_selection_text(Lang::En)[0] != invalid_selection_text(Lang::Fr)[0]);
    assert(added_title_text(Lang::En)[2] != added_title_text(Lang::Fr)[2]);
    assert(failed_title_text(Lang::En)[2] != failed_title_text(Lang::Fr)[2]);
    assert(status_title_text(Lang::En)[0] != status_title_text(Lang::Fr)[0]);
    assert(field_category_text(Lang::En)[3] != field_category_text(Lang::Fr)[3]);
    assert(field_size_text(Lang::En)[0] != field_size_text(Lang::Fr)[0]);
    assert(default_folder_text(Lang::En)[0] != default_folder_text(Lang::Fr)[0]);
    assert(no_save_path_text(Lang::En)[3] != no_save_path_text(Lang::Fr)[3]);
    assert(watch_button_text(Lang::En)[0] != watch_button_text(Lang::Fr)[0]);
    assert(watchlist_waiting_text(Lang::En)[0] != watchlist_waiting_text(Lang::Fr)[0]);
    assert(watchlist_title_text(Lang::En)[0] != watchlist_title_text(Lang::Fr)[0]);
    assert(watchlist_empty_text(Lang::En)[0] != watchlist_empty_text(Lang::Fr)[0]);
    assert(watchlist_admin_title_text(Lang::En)[0] != watchlist_admin_title_text(Lang::Fr)[0]);
    assert(watchlist_admin_empty_text(Lang::En)[0] != watchlist_admin_empty_text(Lang::Fr)[0]);
    assert(watchlist_placeholder_text(Lang::En)[0] != watchlist_placeholder_text(Lang::Fr)[0]);
    assert(no_results_text(Lang::En, q)[0] != no_results_text(Lang::Fr, q)[0]);
    assert(more_in_menu_text(Lang::En, n)[4] != more_in_menu_text(Lang::Fr, n)[4]);
    assert(release_summary_text(Lang::En, q, n, r)[(q.len() + 3 + decimal(n).len() + 2) as int] != release_summary_text(Lang::Fr, q, n, r)[(q.len() + 3 + decimal(n).len() + 2) as int]);
    assert(watch_created_text(Lang::En, q, n, m)[0] != watch_created_text(Lang::Fr, q, n, m)[0]);
    assert(watch_already_text(Lang::En, q)[0] != watch_already_text(Lang::Fr, q)[0]);
    assert(watch_too_many_text(Lang::En, n)[0] != watch_too_many_text(Lang::Fr, n)[0]);
    assert(watch_found_text(Lang::En, q)[(2 + q.len() + 3) as int] != watch_found_text(Lang::Fr, q)[(2 + q.len() + 3) as int]);
    assert(watch_fulfilled_text(Lang::En, q)[0] != watch_fulfilled_text(Lang::Fr, q)[0]);
    assert(watch_gave_up_text(Lang::En, q, m)[0] != watch_gave_up_text(Lang::Fr, q, m)[0]);
    assert(watchlist_entry_text(Lang::En, n, m)[0] != watchlist_entry_text(Lang::Fr, n, m)[0]);
    assert(watchlist_owner_text(Lang::En, n)[0] != watchlist_owner_text(Lang::Fr, n)[0]);
    assert(watchlist_more_text(Lang::En, n)[4] != watchlist_more_text(Lang::Fr, n)[4]);
    assert(watch_stopped_for_text(Lang::En, q, n)[0] != watch_stopped_for_text(Lang::Fr, q, n)[0]);
    assert(watch_stopped_text(Lang::En, q)[0] != watch_stopped_text(Lang::Fr, q)[0]);
    assert(category_missing_text(Lang::En, q)[6] != category_missing_text(Lang::Fr, q)[6]);
}

/// Whatever a message interpolates, text or number, appears in it as given,
/// in both languages.
pub proof fn interpolated_values_are_kept(lang: Lang, q: Seq<char>, r: Seq<char>, n: nat, m: int)
    ensures
        contains(no_results_text(lang, q), q),
        contains(more_in_menu_text(lang, n), decimal(n)),
        contains(release_summary_text(lang, q, n, r), q),
        contains(release_summary_text(lang, q, n, r), decimal(n)),
        contains(release_summary_text(lang, q, n, r), r),
        contains(watch_created_text(lang, q, n, m), q),
        contains(watch_created_text(lang, q, n, m), decimal(n)),
        contains(watch_already_text(lang, q), q),
        contains(watch_too_many_text(lang, n), decimal(n)),
        contains(watch_found_text(lang, q), q),
        contains(watch_fulfilled_text(lang, q), q),
        contains(watch_gave_up_text(lang, q, m), q),
        contains(watchlist_entry_text(lang, n, m), decimal(n)),
        contains(watchlist_owner_text(lang, n), decimal(n)),
        contains(watchlist_more_text(lang, n), decimal(n)),
        contains(watch_stopped_for_text(lang, q, n), q),
        contains(watch_stopped_for_text(lang, q, n), decimal(n)),
        contains(watch_stopped_text(lang, q), q),
        contains(category_missing_text(lang, q), q),
{
    reveal_strlit("\n\n_…and ");
    reveal_strlit("\n\n_…et ");
    reveal_strlit(" seeders · ");
    reveal_strlit(" sources · ");
    reveal_strlit(" · ");
    reveal_strlit("**");
    reveal_strlit("** for <@");
    reveal_strlit("** pour <@");
    reveal_strlit("**. I will look ");
    reveal_strlit("**. Je chercherai ");
    reveal_strlit("Aucun résultat pour **");
    reveal_strlit("Gave up on **");
    reveal_strlit("J'abandonne **");
    reveal_strlit("J'ai arrêté **");
    reveal_strlit("J'ai retiré **");
    reveal_strlit("J'arrête de surveiller **");
    reveal_strlit("Je surveille **");
    reveal_strlit("No result for **");
    reveal_strlit("Removed **");
    reveal_strlit("Stopped **");
    reveal_strlit("Stopped watching **");
    reveal_strlit("Tu as déjà ");
    reveal_strlit("Tu surveilles déjà **");
    reveal_strlit("Watching **");
    reveal_strlit("You already have ");
    reveal_strlit("You are already watching **");
    reveal_strlit("checked ");
    reveal_strlit("owner ");
    reveal_strlit("propriétaire ");
    reveal_strlit("vérifiée ");
    reveal_strlit("⚠️ category `");
    reveal_strlit("⚠️ catégorie `");
    if lang == Lang::En { assert(no_results_text(Lang::En, q).subrange(("No result for **"@.len()) as int, (("No result for **"@.len()) + q.len()) as int) =~= q); }
    if lang == Lang::Fr { assert(no_results_text(Lang::Fr, q).subrange(("Aucun résultat pour **"@.len()) as int, (("Aucun résultat pour **"@.len()) + q.len()) as int) =~= q); }
    if lang == Lang::En { assert(more_in_menu_text(Lang::En, n).subrange(("\n\n_…and "@.len()) as int, (("\n\n_…and "@.len()) + decimal(n).len()) as int) =~= decimal(n)); }
    if lang == Lang::Fr { assert(more_in_menu_text(Lang::Fr, n).subrange(("\n\n_…et "@.len()) as int, (("\n\n_…et "@.len()) + decimal(n).len()) as int) =~= decimal(n)); }
    if lang == Lang::En { assert(release_summary_text(Lang::En, q, n, r).subrange((0) as int, ((0) + q.len()) as int) =~= q); }
    if lang == Lang::En { assert(release_summary_text(Lang::En, q, n, r).subrange((q.len() + " · "@.len()) as int, ((q.len() + " · "@.len()) + decimal(n).len()) as int) =~= decimal(n)); }
    if lang == Lang::En { assert(release_summary_text(Lang::En, q, n, r).subrange((q.len() + " · "@.len() + decimal(n).len() + " seeders · "@.len()) as int, ((q.len() + " · "@.len() + decimal(n).len() + " seeders · "@.len()) + r.len()) as int) =~= r); }
    if lang == Lang::Fr { assert(release_summary_text(Lang::Fr, q, n, r).subrange((0) as int, ((0) + q.len()) as int) =~= q); }
    if lang == Lang::Fr { assert(release_summary_text(Lang::Fr, q, n, r).subrange((q.len() + " · "@.len()) as int, ((q.len() + " · "@.len()) + decimal(n).len()) as int) =~= decimal(n)); }
    if lang == Lang::Fr { assert(release_summary_text(Lang::Fr, q, n, r).subrange((q.len() + " · "@.len() + decimal(n).len() + " sources · "@.len()) as int, ((q.len() + " · "@.len() + decimal(n).len() + " sources · "@.len()) + r.len()) as int) =~= r); }
    if lang == Lang::En { assert(watch_created_text(Lang::En, q, n, m).subrange(("Watching **"@.len()) as int, (("Watching **"@.len()) + q.len()) as int) =~= q); }
    if lang == Lang::En { assert(watch_created_text(Lang::En, q, n, m).subrange(("Watching **"@.len() + q.len() + "**. I will look "@.len()) as int, (("Watching **"@.len() + q.len() + "**. I will look "@.len()) + decimal(n).len()) as int) =~= decimal(n)); }
    if lang == Lang::Fr { assert(watch_created_text(Lang::Fr, q, n, m).subrange(("Je surveille **"@.len()) as int, (("Je surveille **"@.len()) + q.len()) as int) =~= q); }
    if lang == Lang::Fr { assert(watch_created_text(Lang::Fr, q, n, m).subrange(("Je surveille **"@.len() + q.len() + "**. Je chercherai "@.len()) as int, (("Je surveille **"@.len() + q.len() + "**. Je chercherai "@.len()) + decimal(n).len()) as int) =~= decimal(n)); }
    if lang == Lang::En { assert(watch_already_text(Lang::En, q).subrange(("You are already watching **"@.len()) as int, (("You are already watching **"@.len()) + q.len()) as int) =~= q); }
    if lang == Lang::Fr { assert(watch_already_text(Lang::Fr, q).subrange(("Tu surveilles déjà **"@.len()) as int, (("Tu surveilles déjà **"@.len()) + q.len()) as int) =~= q); }
    if lang == Lang::En { assert(watch_too_many_text(Lang::En, n).subrange(("You already have "@.len()) as int, (("You already have "@.len()) + decimal(n).len()) as int) =~= decimal(n)); }
    if lang == Lang::Fr { assert(watch_too_many_text(Lang::Fr, n).subrange(("Tu as déjà "@.len()) as int, (("Tu as déjà "@.len()) + decimal(n).len()) as int) =~= decimal(n)); }
    if lang == Lang::En { assert(watch_found_text(Lang::En, q).subrange(("**"@.len()) as int, (("**"@.len()) + q.len()) as int) =~= q); }
    if lang == Lang::Fr { assert(watch_found_text(Lang::Fr, q).subrange(("**"@.len()) as int, (("**"@.len()) + q.len()) as int) =~= q); }
    if lang == Lang::En { assert(watch_fulfilled_text(Lang::En, q).subrange(("Removed **"@.len()) as int, (("Removed **"@.len()) + q.len()) as int) =~= q); }
    if lang == Lang::Fr { assert(watch_fulfilled_text(Lang::Fr, q).subrange(("J'ai retiré **"@.len()) as int, (("J'ai retiré **"@.len()) + q.len()) as int) =~= q); }
    if lang == Lang::En { assert(watch_gave_up_text(Lang::En, q, m).subrange(("Gave up on **"@.len()) as int, (("Gave up on **"@.len()) + q.len()) as int) =~= q); }
    if lang == Lang::Fr { assert(watch_gave_up_text(Lang::Fr, q, m).subrange(("J'abandonne **"@.len()) as int, (("J'abandonne **"@.len()) + q.len()) as int) =~= q); }
    if lang == Lang::En { assert(watchlist_entry_text(Lang::En, n, m).subrange(("checked "@.len()) as int, (("checked "@.len()) + decimal(n).len()) as int) =~= decimal(n)); }
    if lang == Lang::Fr { assert(watchlist_entry_text(Lang::Fr, n, m).subrange(("vérifiée "@.len()) as int, (("vérifiée "@.len()) + decimal(n).len()) as int) =~= decimal(n)); }
    if lang == Lang::En { assert(watchlist_owner_text(Lang::En, n).subrange(("owner "@.len()) as int, (("owner "@.len()) + decimal(n).len()) as int) =~= decimal(n)); }
    if lang == Lang::Fr { assert(watchlist_owner_text(Lang::Fr, n).subrange(("propriétaire "@.len()) as int, (("propriétaire "@.len()) + decimal(n).len()) as int) =~= decimal(n)); }
    if lang == Lang::En { assert(watchlist_more_text(Lang::En, n).subrange(("\n\n_…and "@.len()) as int, (("\n\n_…and "@.len()) + decimal(n).len()) as int) =~= decimal(n)); }
    if lang == Lang::Fr { assert(watchlist_more_text(Lang::Fr, n).subrange(("\n\n_…et "@.len()) as int, (("\n\n_…et "@.len()) + decimal(n).len()) as int) =~= decimal(n)); }
    if lang == Lang::En { assert(watch_stopped_for_text(Lang::En, q, n).subrange(("Stopped **"@.len()) as int, (("Stopped **"@.len()) + q.len()) as int) =~= q); }
    if lang == Lang::En { assert(watch_stopped_for_text(Lang::En, q, n).subrange(("Stopped **"@.len() + q.len() + "** for <@"@.len()) as int, (("Stopped **"@.len() + q.len() + "** for <@"@.len()) + decimal(n).len()) as int) =~= decimal(n)); }
    if lang == Lang::Fr { assert(watch_stopped_for_text(Lang::Fr, q, n).subrange(("J'ai arrêté **"@.len()) as int, (("J'ai arrêté **"@.len()) + q.len()) as int) =~= q); }
    if lang == Lang::Fr { assert(watch_stopped_for_text(Lang::Fr, q, n).subrange(("J'ai arrêté **"@.len() + q.len() + "** pour <@"@.len()) as int, (("J'ai arrêté **"@.len() + q.len() + "** pour <@"@.len()) + decimal(n).len()) as int) =~= decimal(n)); }
    if lang == Lang::En { assert(watch_stopped_text(Lang::En, q).subrange(("Stopped watching **"@.len()) as int, (("Stopped watching **"@.len()) + q.len()) as int) =~= q); }
    if lang == Lang::Fr { assert(watch_stopped_text(Lang::Fr, q).subrange(("J'arrête de surveiller **"@.len()) as int, (("J'arrête de surveiller **"@.len()) + q.len()) as int) =~= q); }
    if lang == Lang::En { assert(category_missing_text(Lang::En, q).subrange(("⚠️ category `"@.len()) as int, (("⚠️ category `"@.len()) + q.len()) as int) =~= q); }
    if lang == Lang::Fr { assert(category_missing_text(Lang::Fr, q).subrange(("⚠️ catégorie `"@.len()) as int, (("⚠️ catégorie `"@.len()) + q.len()) as int) =~= q); }
}

/// A language's code, read back as a language name, gives that language.
pub proof fn a_code_names_its_language(lang: Lang)
    ensures
        lang_named(normalised_name(match lang {
            Lang::En => "en"@,
            Lang::Fr => "fr"@,
        })) == Some(lang),
{
    reveal_strlit("en");
    reveal_strlit("fr");
    reveal_strlit("en-us");
    reveal_strlit("en-gb");
    reveal_strlit("english");
    let c = match lang {
        Lang::En => "en"@,
        Lang::Fr => "fr"@,
    };
    assert(trim(c) =~= c);
    assert(ascii_lowercase(c) =~= c);
}

/// The numbers are read with their words: the overflow note says "and N more"
/// or "et N autre(s)", and a release summary counts "N seeders" or
/// "N sources".
pub proof fn the_counts_read_with_their_words(
    hidden: nat,
    size: Seq<char>,
    seeders: nat,
    indexer: Seq<char>,
)
    ensures
        contains(more_in_menu_text(Lang::En, hidden), "and "@ + decimal(hidden) + " more"@),
        contains(more_in_menu_text(Lang::Fr, hidden), "et "@ + decimal(hidden) + " autre"@),
        contains(
            release_summary_text(Lang::En, size, seeders, indexer),
            decimal(seeders) + " seeders"@,
        ),
        contains(
            release_summary_text(Lang::Fr, size, seeders, indexer),
            decimal(seeders) + " sources"@,
        ),
{
    reveal_strlit("\n\n_…and ");
    reveal_strlit("\n\n_…et ");
    reveal_strlit(" more in the menu below._");
    reveal_strlit(" autre(s) dans le menu ci-dessous._");
    reveal_strlit(" · ");
    reveal_strlit(" seeders · ");
    reveal_strlit(" sources · ");
    reveal_strlit("and ");
    reveal_strlit("et ");
    reveal_strlit(" more");
    reveal_strlit(" autre");
    reveal_strlit(" seeders");
    reveal_strlit(" sources");
    let d = decimal(hidden);
    let en = "and "@ + d + " more"@;
    let fr = "et "@ + d + " autre"@;
    assert(more_in_menu_text(Lang::En, hidden).subrange(4, (4 + en.len()) as int) =~= en);
    assert(more_in_menu_text(Lang::Fr, hidden).subrange(4, (4 + fr.len()) as int) =~= fr);
    let k = decimal(seeders);
    let at: int = (size.len() + 3) as int;
    let es = k + " seeders"@;
    let fs = k + " sources"@;
    assert(release_summary_text(Lang::En, size, seeders, indexer).subrange(at, at + es.len()) =~= es);
    assert(release_summary_text(Lang::Fr, size, seeders, indexer).subrange(at, at + fs.len()) =~= fs);
}

} // verus!

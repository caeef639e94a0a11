//! The decisions taken around qBittorrent's Web API: which save path a
//! download gets, what the add request carries, and how answers are read.

use crate::prowlarr::Download;
use crate::text::{contains, str_contains, str_eq, trim, trim_str};
use vstd::prelude::*;
use vstd::string::*;

verus! {

/// A qBittorrent category.
#[derive(Debug, Clone, PartialEq, Eq)]
pub struct Category {
    pub name: String,
    pub save_path: String,
}

/// The category filed under `name` among categories keyed by name, if any.
pub open spec fn category_named(categories: Seq<(String, Category)>, name: Seq<char>) -> Option<
    Category,
>
    decreases categories.len(),
{
    if categories.len() == 0 {
        None
    } else if categories[0].0@ == name {
        Some(categories[0].1)
    } else {
        category_named(categories.drop_first(), name)
    }
}

/// Looks a category up by name.
pub fn find_category<'a>(categories: &'a [(String, Category)], name: &str) -> (r: Option<
    &'a Category,
>)
    requires
        distinct_names(categories@),
    ensures
        match category_named(categories@, name@) {
            Some(c) => r == Some(&c),
            None => r is None,
        },
{
    let mut i: usize = 0;
    assert(categories@.subrange(0, categories@.len() as int) =~= categories@);
    while i < categories.len()
        invariant
            i <= categories@.len(),
            category_named(categories@, name@) == category_named(
                categories@.subrange(i as int, categories@.len() as int),
                name@,
            ),
        decreases categories@.len() - i,
    {
        let ghost rest = categories@.subrange(i as int, categories@.len() as int);
        assert(rest[0] == categories@[i as int]);
        assert(rest.drop_first() =~= categories@.subrange(i + 1, categories@.len() as int));
        if str_eq(categories[i].0.as_str(), name) {
            return Some(&categories[i].1);
        }
        i = i + 1;
    }
    None
}

/// The save path a category gives: its own, or none (empty) when the
/// category does not exist.
pub open spec fn save_path_of(categories: Seq<(String, Category)>, name: Seq<char>) -> Seq<char> {
    match category_named(categories, name) {
        Some(c) => c.save_path@,
        None => Seq::empty(),
    }
}

/// The save path sent with a download when none is given: the category's.
/// It must be sent explicitly: qBittorrent only honours a category's save
/// path when Automatic Torrent Management is on, and it is off by default.
pub fn category_save_path(categories: &[(String, Category)], name: &str) -> (p: String)
    requires
        distinct_names(categories@),
    ensures
        p@ == save_path_of(categories@, name@),
{
    match find_category(categories, name) {
        Some(c) => c.save_path.clone(),
        None => String::new(),
    }
}

/// One field of the multipart form that adds a download.
#[derive(Debug, Clone, PartialEq, Eq)]
pub enum FormField {
    /// A plain text field.
    Text(String, String),
    /// An uploaded `.torrent` file.
    Torrent(Vec<u8>),
}

/// What a [`FormField`] carries.
pub enum FormFieldView {
    Text(Seq<char>, Seq<char>),
    Torrent(Seq<u8>),
}

impl View for FormField {
    type V = FormFieldView;

    open spec fn view(&self) -> FormFieldView {
        match self {
            FormField::Text(n, v) => FormFieldView::Text(n@, v@),
            FormField::Torrent(b) => FormFieldView::Torrent(b@),
        }
    }
}

/// The form that adds a download: the category, the save path when there is
/// one, both spellings of "paused" when asked (`paused` is 4.x, `stopped`
/// is 5.x), then the magnet link or the torrent file.
pub open spec fn add_form_fields(download: Download, category: Seq<char>, save_path: Seq<char>, paused: bool) -> Seq<
    FormFieldView,
> {
    seq![FormFieldView::Text("category"@, category)] + (if save_path.len() > 0 {
        seq![FormFieldView::Text("savepath"@, save_path)]
    } else {
        Seq::empty()
    }) + (if paused {
        seq![FormFieldView::Text("paused"@, "true"@), FormFieldView::Text("stopped"@, "true"@)]
    } else {
        Seq::empty()
    }) + match download {
        Download::Magnet(url) => seq![FormFieldView::Text("urls"@, url@)],
        Download::Torrent(bytes) => seq![FormFieldView::Torrent(bytes@)],
    }
}

fn text_field(name: &str, value: &str) -> (f: FormField)
    ensures
        f@ == FormFieldView::Text(name@, value@),
{
    FormField::Text(String::from_str(name), String::from_str(value))
}

/// The fields of the request that adds a download.
pub fn add_form(download: &Download, category: &str, save_path: &str, paused: bool) -> (r: Vec<
    FormField,
>)
    ensures
        r@.map_values(|f: FormField| f@) == add_form_fields(*download, category@, save_path@, paused),
{
    let mut r: Vec<FormField> = Vec::new();
    r.push(text_field("category", category));
    let ghost a = seq![FormFieldView::Text("category"@, category@)];
    assert(r@.map_values(|f: FormField| f@) =~= a);
    if save_path.unicode_len() > 0 {
        r.push(text_field("savepath", save_path));
    }
    let ghost b = a + (if save_path@.len() > 0 {
        seq![FormFieldView::Text("savepath"@, save_path@)]
    } else {
        Seq::empty()
    });
    assert(r@.map_values(|f: FormField| f@) =~= b);
    if paused {
        r.push(text_field("paused", "true"));
        r.push(text_field("stopped", "true"));
    }
    let ghost c = b + (if paused {
        seq![FormFieldView::Text("paused"@, "true"@), FormFieldView::Text("stopped"@, "true"@)]
    } else {
        Seq::empty()
    });
    assert(r@.map_values(|f: FormField| f@) =~= c);
    match download {
        Download::Magnet(url) => r.push(text_field("urls", url.as_str())),
        Download::Torrent(bytes) => r.push(FormField::Torrent(bytes.clone())),
    }
    assert(r@.map_values(|f: FormField| f@) =~= add_form_fields(
        *download,
        category@,
        save_path@,
        paused,
    ));
    r
}

/// Whether qBittorrent accepted a download. 4.x answers `Ok.` (or nothing),
/// 5.x a JSON object: `reported` is the `success_count` that object holds,
/// when the answer is one.
pub open spec fn add_accepted(body: Seq<char>, reported: Option<u32>) -> bool {
    trim(body).len() == 0 || contains(trim(body), "Ok"@) || (reported matches Some(n) && n > 0)
}

pub fn add_succeeded(body: &str, reported: Option<u32>) -> (b: bool)
    ensures
        b == add_accepted(body@, reported),
{
    let trimmed = trim_str(body);
    if trimmed.as_str().unicode_len() == 0 || str_contains(trimmed.as_str(), "Ok") {
        return true;
    }
    match reported {
        Some(n) => n > 0,
        None => false,
    }
}

/// Whether the login answer accepts the credentials.
pub fn login_accepted(body: &str) -> (b: bool)
    ensures
        b == contains(body@, "Ok"@),
{
    str_contains(body, "Ok")
}

/// The save path a download is sent with: the one given, else the one its
/// category gives.
pub fn save_path_for(given: Option<&str>, categories: &[(String, Category)], category: &str) -> (p:
    String)
    requires
        distinct_names(categories@),
    ensures
        p@ == match given {
            Some(g) => g@,
            None => save_path_of(categories@, category@),
        },
{
    match given {
        Some(g) => String::from_str(g),
        None => category_save_path(categories, category),
    }
}

/// The text of a refused request: qBittorrent answers 403 when it wants
/// credentials, and any other status is not a refusal.
pub fn refusal(status: u16) -> (r: Option<&'static str>)
    ensures
        r is Some <==> status == 403,
        r matches Some(m) ==> m@ == "qBittorrent refused the request (403): set QBIT_USER / QBIT_PASS"@,
{
    if status == 403 {
        Some("qBittorrent refused the request (403): set QBIT_USER / QBIT_PASS")
    } else {
        None
    }
}

/// Keys that are all different, as in a map.
pub open spec fn distinct_names(categories: Seq<(String, Category)>) -> bool {
    forall|i: int, j: int|
        0 <= i < j < categories.len() ==> (#[trigger] categories[i]).0@ != (#[trigger] categories[j]).0@
}

/// Among categories keyed by distinct names, as qBittorrent lists them, a
/// name finds exactly the category filed under it.
pub proof fn a_category_is_found_by_its_name(categories: Seq<(String, Category)>, i: int)
    requires
        distinct_names(categories),
        0 <= i < categories.len(),
    ensures
        category_named(categories, categories[i].0@) == Some(categories[i].1),
    decreases i,
{
    if i > 0 {
        let rest = categories.drop_first();
        assert(categories[0].0@ != categories[i].0@);
        assert(rest[i - 1] == categories[i]);
        assert forall|a: int, b: int| 0 <= a < b < rest.len() implies (#[trigger] rest[a]).0@ != (#[trigger] rest[b]).0@ by {
            assert(rest[a] == categories[a + 1]);
            assert(rest[b] == categories[b + 1]);
        }
        a_category_is_found_by_its_name(rest, i - 1);
    }
}

/// Whether the categories are keyed by distinct names, as qBittorrent's map
/// of categories always is.
pub fn names_are_distinct(categories: &[(String, Category)]) -> (b: bool)
    ensures
        b == distinct_names(categories@),
{
    let n = categories.len();
    let mut j: usize = 1;
    while j < n
        invariant
            1 <= j <= n || n == 0,
            n == categories@.len(),
            forall|a: int, b: int|
                0 <= a < b < j && b < n ==> (#[trigger] categories@[a]).0@ != (
                #[trigger] categories@[b]).0@,
        decreases n - j,
    {
        let mut i: usize = 0;
        while i < j
            invariant
                0 <= i <= j < n,
                n == categories@.len(),
                forall|a: int, b: int|
                    0 <= a < b < j ==> (#[trigger] categories@[a]).0@ != (#[trigger] categories@[b]).0@,
                forall|a: int| 0 <= a < i ==> (#[trigger] categories@[a]).0@ != categories@[j as int].0@,
            decreases j - i,
        {
            if str_eq(categories[i].0.as_str(), categories[j].0.as_str()) {
                assert(categories@[i as int].0@ == categories@[j as int].0@);
                return false;
            }
            i = i + 1;
        }
        j = j + 1;
    }
    true
}

/// Whether a field is a text field with this name.
pub open spec fn names_field(f: FormFieldView, name: Seq<char>) -> bool {
    match f {
        FormFieldView::Text(n, _) => n == name,
        FormFieldView::Torrent(_) => false,
    }
}

/// Whatever is downloaded, a magnet link or a torrent file, the form carries
/// the same fields up to its last one: the category first, then the save path
/// whenever there is one, and only there; the last field is the download.
pub proof fn the_form_carries_the_save_path_whatever_is_downloaded(
    a: Download,
    b: Download,
    category: Seq<char>,
    save_path: Seq<char>,
    paused: bool,
)
    ensures
        add_form_fields(a, category, save_path, paused).drop_last() == add_form_fields(
            b,
            category,
            save_path,
            paused,
        ).drop_last(),
        add_form_fields(a, category, save_path, paused)[0] == FormFieldView::Text(
            "category"@,
            category,
        ),
        save_path.len() > 0 ==> add_form_fields(a, category, save_path, paused)[1]
            == FormFieldView::Text("savepath"@, save_path),
        forall|i: int|
            0 <= i < add_form_fields(a, category, save_path, paused).len() && names_field(
                #[trigger] add_form_fields(a, category, save_path, paused)[i],
                "savepath"@,
            ) ==> i == 1 && save_path.len() > 0,
        add_form_fields(a, category, save_path, paused).last() == match a {
            Download::Magnet(url) => FormFieldView::Text("urls"@, url@),
            Download::Torrent(bytes) => FormFieldView::Torrent(bytes@),
        },
{
    reveal_strlit("category");
    reveal_strlit("savepath");
    reveal_strlit("paused");
    reveal_strlit("stopped");
    reveal_strlit("urls");
    let fa = add_form_fields(a, category, save_path, paused);
    let fb = add_form_fields(b, category, save_path, paused);
    let head = seq![FormFieldView::Text("category"@, category)] + (if save_path.len() > 0 {
        seq![FormFieldView::Text("savepath"@, save_path)]
    } else {
        Seq::empty()
    }) + (if paused {
        seq![FormFieldView::Text("paused"@, "true"@), FormFieldView::Text("stopped"@, "true"@)]
    } else {
        Seq::empty()
    });
    assert(fa.drop_last() =~= head);
    assert(fb.drop_last() =~= head);
    assert forall|i: int|
        0 <= i < fa.len() && names_field(#[trigger] fa[i], "savepath"@) implies i == 1 && save_path.len() > 0 by {
        assert("category"@[0] != "savepath"@[0]);
        assert("paused"@.len() != "savepath"@.len());
        assert("stopped"@.len() != "savepath"@.len());
        assert("urls"@.len() != "savepath"@.len());
        if i < fa.len() - 1 {
            assert(fa[i] == head[i]);
            if save_path.len() > 0 {
                assert(head[1] == FormFieldView::Text("savepath"@, save_path));
                if i >= 2 {
                    assert(head[i] == FormFieldView::Text("paused"@, "true"@) || head[i]
                        == FormFieldView::Text("stopped"@, "true"@));
                }
            } else if i >= 1 {
                assert(head[i] == FormFieldView::Text("paused"@, "true"@) || head[i]
                    == FormFieldView::Text("stopped"@, "true"@));
            }
        }
    }
}

/// A name that no entry carries finds nothing.
pub proof fn lemma_no_category_named(categories: Seq<(String, Category)>, name: Seq<char>)
    requires
        forall|i: int| 0 <= i < categories.len() ==> (#[trigger] categories[i]).0@ != name,
    ensures
        category_named(categories, name) is None,
    decreases categories.len(),
{
    if categories.len() > 0 {
        assert(categories[0].0@ != name);
        let rest = categories.drop_first();
        assert forall|i: int| 0 <= i < rest.len() implies (#[trigger] rest[i]).0@ != name by {
            assert(rest[i] == categories[i + 1]);
        }
        lemma_no_category_named(rest, name);
    }
}

} // verus!

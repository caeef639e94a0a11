//! Releases found through Prowlarr, and the decisions taken on them: title
//! repair, ordering, the search request and the walk to the download itself.

use crate::text::{chars_of, push_char, push_decimal, str_starts_with, decimal, starts_with};
use vstd::prelude::*;
use vstd::string::*;
use vstd::utf8::{decode_utf8, encode_utf8, valid_utf8};

verus! {

/// Enough for a title that went through the bad decode twice; a third pass has
/// never been seen and the loop stops on its own anyway.
pub const MAX_REPAIR_PASSES: usize = 3;

/// A release as Prowlarr lists it.
#[derive(Debug, Clone, PartialEq, Eq)]
pub struct Release {
    pub title: String,
    pub guid: String,
    pub indexer_id: i64,
    pub indexer: String,
    pub size: u64,
    pub seeders: Option<u32>,
    pub leechers: Option<u32>,
    pub download_url: Option<String>,
    pub magnet_url: Option<String>,
    pub protocol: String,
}

/// What a release resolves to once fetched.
#[derive(Debug, Clone, PartialEq, Eq)]
pub enum Download {
    Torrent(Vec<u8>),
    Magnet(String),
}

/// Reads bytes as UTF-8 text. `String::from_utf8` has no specification in vstd;
/// its documentation says it accepts exactly the valid UTF-8 byte sequences,
/// and the text it returns is what they encode.
#[verifier::external_body]
fn decode_utf8_bytes(bytes: Vec<u8>) -> (r: Option<String>)
    ensures
        r is Some <==> valid_utf8(bytes@),
        r matches Some(s) ==> s@ == decode_utf8(bytes@),
{
    match String::from_utf8(bytes) {
        Ok(s) => Some(s),
        Err(_) => None,
    }
}

/// Whether some character of `s` is in `U+0080..=U+00FF`, where the damage shows.
pub open spec fn has_latin1_high(s: Seq<char>) -> bool {
    exists|i: int| 0 <= i < s.len() && 0x80 <= (#[trigger] s[i]) as u32 <= 0xff
}

/// Whether every character of `s` fits in one byte.
pub open spec fn fits_in_bytes(s: Seq<char>) -> bool {
    forall|i: int| 0 <= i < s.len() ==> (#[trigger] s[i]) as u32 <= 0xff
}

/// The bytes the characters of `s` stand for, one per character.
pub open spec fn as_bytes(s: Seq<char>) -> Seq<u8> {
    s.map_values(|c: char| c as u32 as u8)
}

/// One repair pass: the text the characters decode to when read back as the
/// UTF-8 bytes they were, or `None` when the text gives no reason to think it
/// is damaged (no character in `U+0080..=U+00FF`, a character that is no byte,
/// bytes that are not UTF-8, or a decoding that shrinks nothing).
pub open spec fn repair_pass(s: Seq<char>) -> Option<Seq<char>> {
    if has_latin1_high(s) && fits_in_bytes(s) && valid_utf8(as_bytes(s)) && decode_utf8(
        as_bytes(s),
    ).len() < s.len() {
        Some(decode_utf8(as_bytes(s)))
    } else {
        None
    }
}

/// Up to `passes` repair passes, stopping at the first that changes nothing.
pub open spec fn repaired(s: Seq<char>, passes: nat) -> Seq<char>
    decreases passes,
{
    if passes == 0 {
        s
    } else {
        match repair_pass(s) {
            Some(next) => repaired(next, (passes - 1) as nat),
            None => s,
        }
    }
}

/// One pass, or `None` when the text gives no reason to think it is damaged.
pub fn repaired_once(text: &str) -> (r: Option<String>)
    ensures
        match repair_pass(text@) {
            Some(t) => r matches Some(s) && s@ == t,
            None => r is None,
        },
{
    let chars = chars_of(text);
    let mut high = false;
    let mut bytes: Vec<u8> = Vec::new();
    let mut i: usize = 0;
    while i < chars.len()
        invariant
            chars@ == text@,
            i <= chars@.len(),
            bytes@ == as_bytes(chars@.subrange(0, i as int)),
            fits_in_bytes(chars@.subrange(0, i as int)),
            high == has_latin1_high(chars@.subrange(0, i as int)),
        decreases chars@.len() - i,
    {
        let u = chars[i] as u32;
        let ghost before = chars@.subrange(0, i as int);
        let ghost after = chars@.subrange(0, i + 1);
        assert(after =~= before.push(chars@[i as int]));
        if u > 0xff {
            proof {
                assert(!fits_in_bytes(chars@)) by {
                    assert(chars@[i as int] as u32 > 0xff);
                }
            }
            return None;
        }
        if 0x80 <= u {
            high = true;
            assert(after[i as int] == chars@[i as int]);
        }
        proof {
            if 0x80 > u && has_latin1_high(after) {
                let j = choose|j: int| 0 <= j < after.len() && 0x80 <= (#[trigger] after[j]) as u32 <= 0xff;
                assert(j < i);
                assert(before[j] == after[j]);
            }
            if has_latin1_high(before) {
                let j = choose|j: int| 0 <= j < before.len() && 0x80 <= (#[trigger] before[j]) as u32 <= 0xff;
                assert(after[j] == before[j]);
            }
        }
        bytes.push(u as u8);
        i = i + 1;
        assert(bytes@ =~= as_bytes(chars@.subrange(0, i as int)));
    }
    assert(chars@.subrange(0, i as int) =~= chars@);
    if !high {
        return None;
    }
    let decoded = match decode_utf8_bytes(bytes) {
        Some(d) => d,
        None => {
            return None;
        },
    };
    if decoded.as_str().unicode_len() < chars.len() {
        Some(decoded)
    } else {
        None
    }
}

/// Some trackers hand Prowlarr a title whose UTF-8 bytes were read as Latin-1
/// somewhere upstream, so `é` reaches us as `Ã©`. The damage is undone by
/// re-reading those characters as the bytes they first were, a pass at a
/// time, only where it cannot invent anything (see [`repaired_once`]).
pub fn repair_mojibake(text: &str) -> (r: String)
    ensures
        r@ == repaired(text@, MAX_REPAIR_PASSES as nat),
{
    let mut current = String::from_str(text);
    let mut pass: usize = 0;
    while pass < MAX_REPAIR_PASSES
        invariant
            pass <= MAX_REPAIR_PASSES,
            repaired(text@, MAX_REPAIR_PASSES as nat) == repaired(
                current@,
                (MAX_REPAIR_PASSES - pass) as nat,
            ),
        decreases MAX_REPAIR_PASSES - pass,
    {
        match repaired_once(current.as_str()) {
            Some(next) => {
                current = next;
            },
            None => {
                return current;
            },
        }
        pass = pass + 1;
    }
    current
}


/// What `t` looks like once its UTF-8 bytes have been read as Latin-1, one
/// character per byte: the damage the repair undoes.
pub open spec fn mangled(t: Seq<char>) -> Seq<char> {
    encode_utf8(t).map_values(|b: u8| b as char)
}

proof fn lemma_encode_len(t: Seq<char>)
    ensures
        encode_utf8(t).len() >= t.len(),
        (exists|i: int| 0 <= i < t.len() && (#[trigger] t[i]) as u32 >= 0x80) ==> encode_utf8(t).len()
            > t.len(),
    decreases t.len(),
{
    if t.len() > 0 {
        lemma_encode_len(t.drop_first());
        if exists|i: int| 0 <= i < t.len() && (#[trigger] t[i]) as u32 >= 0x80 {
            let i = choose|i: int| 0 <= i < t.len() && (#[trigger] t[i]) as u32 >= 0x80;
            if i > 0 {
                assert(t.drop_first()[i - 1] == t[i]);
            }
        }
    }
}

proof fn lemma_shrinking_decode_has_high_byte(b: Seq<u8>)
    requires
        valid_utf8(b),
        decode_utf8(b).len() < b.len(),
    ensures
        exists|i: int| 0 <= i < b.len() && (#[trigger] b[i]) >= 0x80,
    decreases b.len(),
{
    if b[0] < 0x80 {
        let rest = vstd::utf8::pop_first_scalar(b);
        assert(rest =~= b.subrange(1, b.len() as int));
        lemma_decode_len(rest);
        lemma_shrinking_decode_has_high_byte(rest);
        let i = choose|i: int| 0 <= i < rest.len() && (#[trigger] rest[i]) >= 0x80;
        assert(b[i + 1] == rest[i]);
    } else {
        assert(b[0] >= 0x80);
    }
}

proof fn lemma_decode_len(b: Seq<u8>)
    requires
        valid_utf8(b),
    ensures
        decode_utf8(b).len() <= b.len(),
    decreases b.len(),
{
    if b.len() > 0 {
        let rest = vstd::utf8::pop_first_scalar(b);
        lemma_decode_len(rest);
    }
}

/// Reading the damaged text back as bytes gives back exactly the text before
/// the damage, whenever that text had a character outside ASCII (a pure ASCII title is
/// never damaged in the first place).
pub proof fn one_pass_undoes_the_damage(t: Seq<char>)
    requires
        exists|i: int| 0 <= i < t.len() && (#[trigger] t[i]) as u32 >= 0x80,
    ensures
        repair_pass(mangled(t)) == Some(t),
{
    broadcast use vstd::utf8::encode_utf8_valid_utf8, vstd::utf8::encode_utf8_decode_utf8;

    let b = encode_utf8(t);
    let m = mangled(t);
    assert(as_bytes(m) =~= b);
    assert(fits_in_bytes(m));
    lemma_encode_len(t);
    assert(decode_utf8(b) == t);
    lemma_shrinking_decode_has_high_byte(b);
    let i = choose|i: int| 0 <= i < b.len() && (#[trigger] b[i]) >= 0x80;
    assert(0x80 <= m[i] as u32 <= 0xff);
}

/// A title with no character in `U+0080..=U+00FF` is never touched.
pub proof fn an_undamaged_title_is_kept(s: Seq<char>, passes: nat)
    requires
        !has_latin1_high(s),
    ensures
        repaired(s, passes) == s,
{
}

/// Repair never makes a title longer.
pub proof fn repair_never_lengthens(s: Seq<char>, passes: nat)
    ensures
        repaired(s, passes).len() <= s.len(),
    decreases passes,
{
    if passes > 0 {
        if let Some(next) = repair_pass(s) {
            repair_never_lengthens(next, (passes - 1) as nat);
        }
    }
}


/// How many seeders a release counts; an unknown count is zero.
pub open spec fn seeds(r: Release) -> nat {
    match r.seeders {
        Some(n) => n as nat,
        None => 0,
    }
}

/// Releases with exactly `k` seeders.
pub open spec fn seeded(k: nat) -> spec_fn(Release) -> bool {
    |r: Release| seeds(r) == k
}

/// Whether releases are listed best seeded first.
pub open spec fn best_seeded_first_order(s: Seq<Release>) -> bool {
    forall|i: int, j: int| 0 <= i < j < s.len() ==> seeds(#[trigger] s[i]) >= seeds(#[trigger] s[j])
}

proof fn lemma_insert_sorted(o: Seq<Release>, p: int, x: Release)
    requires
        0 <= p <= o.len(),
        best_seeded_first_order(o),
        forall|j: int| 0 <= j < p ==> seeds(#[trigger] o[j]) >= seeds(x),
        p < o.len() ==> seeds(o[p]) < seeds(x),
    ensures
        best_seeded_first_order(o.insert(p, x)),
        forall|k: nat|
            #![trigger o.insert(p, x).filter(seeded(k))]
            o.insert(p, x).filter(seeded(k)) == if k == seeds(x) {
                o.filter(seeded(k)).push(x)
            } else {
                o.filter(seeded(k))
            },
{
    let n = o.insert(p, x);
    assert forall|i: int, j: int| 0 <= i < j < n.len() implies seeds(#[trigger] n[i]) >= seeds(
        #[trigger] n[j],
    ) by {
        if j < p {
            assert(n[i] == o[i] && n[j] == o[j]);
        } else if j == p {
            assert(n[i] == o[i]);
        } else if i < p {
            assert(n[i] == o[i] && n[j] == o[j - 1]);
            assert(seeds(o[j - 1]) <= seeds(o[p]));
        } else if i == p {
            assert(n[j] == o[j - 1]);
            assert(seeds(o[j - 1]) <= seeds(o[p]));
        } else {
            assert(n[i] == o[i - 1] && n[j] == o[j - 1]);
        }
    }
    let front = o.subrange(0, p);
    let back = o.subrange(p, o.len() as int);
    assert(n =~= front + seq![x] + back);
    assert(o =~= front + back);
    assert forall|k: nat|
        #![trigger o.insert(p, x).filter(seeded(k))]
        o.insert(p, x).filter(seeded(k)) == if k == seeds(x) {
            o.filter(seeded(k)).push(x)
        } else {
            o.filter(seeded(k))
        } by {
        let q = seeded(k);
        Seq::filter_distributes_over_add(front + seq![x], back, q);
        Seq::filter_distributes_over_add(front, seq![x], q);
        Seq::filter_distributes_over_add(front, back, q);
        reveal_with_fuel(Seq::filter, 2);
        assert(seq![x].drop_last() =~= Seq::<Release>::empty());
        if k == seeds(x) {
            assert forall|j: int| 0 <= j < back.len() implies !q(#[trigger] back[j]) by {
                assert(back[j] == o[p + j]);
                if j > 0 {
                    assert(seeds(o[p]) >= seeds(o[p + j]));
                }
            }
            crate::seqs::lemma_filter_none(back, q);
            assert(front.filter(q) + seq![x] =~= front.filter(q).push(x));
        }
    }
}

/// How many seeders a release counts; an unknown count is zero.
pub fn seeder_count(r: &Release) -> (n: u32)
    ensures
        n as nat == seeds(*r),
{
    match r.seeders {
        Some(n) => n,
        None => 0,
    }
}

/// Releases ordered best seeded first, keeping the listing's order among
/// releases with as many seeders (a stable sort on the seeder count, highest
/// first, an unknown count counting as zero).
pub fn best_seeded_first(releases: Vec<Release>) -> (r: Vec<Release>)
    ensures
        best_seeded_first_order(r@),
        forall|k: nat| #[trigger] r@.filter(seeded(k)) == releases@.filter(seeded(k)),
        r@.len() == releases@.len(),
{
    let ghost all = releases@;
    let mut rest = releases;
    let mut out: Vec<Release> = Vec::new();
    let ghost mut i: int = 0;
    while rest.len() > 0
        invariant
            0 <= i <= all.len(),
            rest@ == all.subrange(i, all.len() as int),
            best_seeded_first_order(out@),
            out@.len() == i,
            forall|k: nat| #[trigger] out@.filter(seeded(k)) == all.subrange(0, i).filter(seeded(k)),
        decreases rest@.len(),
    {
        let x = rest.remove(0);
        let key = seeder_count(&x);
        let mut p: usize = 0;
        while p < out.len() && seeder_count(&out[p]) >= key
            invariant
                p <= out@.len(),
                key as nat == seeds(x),
                forall|j: int| 0 <= j < p ==> seeds(#[trigger] out@[j]) >= seeds(x),
            decreases out@.len() - p,
        {
            p = p + 1;
        }
        let ghost before = out@;
        proof {
            lemma_insert_sorted(out@, p as int, x);
            assert forall|k: nat| #[trigger] all.subrange(0, i + 1).filter(seeded(k)) == if k == seeds(x) {
                all.subrange(0, i).filter(seeded(k)).push(x)
            } else {
                all.subrange(0, i).filter(seeded(k))
            } by {
                crate::seqs::lemma_filter_prefix(all, seeded(k), i);
            }
            i = i + 1;
        }
        out.insert(p, x);
        assert(rest@ =~= all.subrange(i, all.len() as int));
        assert forall|k: nat| #[trigger] out@.filter(seeded(k)) == all.subrange(0, i).filter(seeded(k)) by {
            assert(out@ == before.insert(p as int, x));
            assert(before.insert(p as int, x).filter(seeded(k)) == out@.filter(seeded(k)));
            assert(all.subrange(0, i).filter(seeded(k)) == all.subrange(0, i - 1 + 1).filter(seeded(k)));
        }
    }
    assert(all.subrange(0, i) =~= all);
    out
}


/// How many requests a download link may take, redirects included.
pub const MAX_REDIRECTS: usize = 5;

/// The query Prowlarr is asked: the words, the search type, the number of
/// results wanted and each category, in that order.
pub open spec fn search_query(query: Seq<char>, categories: Seq<u32>, limit: u32) -> Seq<
    (Seq<char>, Seq<char>),
> {
    seq![("query"@, query), ("type"@, "search"@), ("limit"@, decimal(limit as nat))]
        + categories.map_values(|c: u32| ("categories"@, decimal(c as nat)))
}

fn pair(name: &str, value: String) -> (p: (String, String))
    ensures
        p.0@ == name@,
        p.1@ == value@,
{
    (String::from_str(name), value)
}

fn decimal_string(n: u64) -> (s: String)
    ensures
        s@ == decimal(n as nat),
{
    let mut s = String::new();
    push_decimal(&mut s, n);
    s
}

/// The parameters of a search request.
pub fn search_params(query: &str, categories: &[u32], limit: u32) -> (r: Vec<(String, String)>)
    ensures
        r.deep_view() == search_query(query@, categories@, limit),
{
    let mut r: Vec<(String, String)> = Vec::new();
    r.push(pair("query", String::from_str(query)));
    r.push(pair("type", String::from_str("search")));
    r.push(pair("limit", decimal_string(limit as u64)));
    let ghost head = seq![("query"@, query@), ("type"@, "search"@), ("limit"@, decimal(limit as nat))];
    assert(r.deep_view() =~= head);
    let mut i: usize = 0;
    while i < categories.len()
        invariant
            i <= categories@.len(),
            head == seq![("query"@, query@), ("type"@, "search"@), ("limit"@, decimal(limit as nat))],
            r.deep_view() == head + categories@.subrange(0, i as int).map_values(
                |c: u32| ("categories"@, decimal(c as nat)),
            ),
        decreases categories@.len() - i,
    {
        let ghost before = r.deep_view();
        r.push(pair("categories", decimal_string(categories[i] as u64)));
        i = i + 1;
        assert(r.deep_view() =~= before.push(("categories"@, decimal(categories@[i - 1] as nat))));
        assert(r.deep_view() =~= head + categories@.subrange(0, i as int).map_values(
            |c: u32| ("categories"@, decimal(c as nat)),
        ));
    }
    assert(categories@.subrange(0, i as int) =~= categories@);
    r
}

/// Whether a text parses as an absolute URL.
pub uninterp spec fn url_parses(s: Seq<char>) -> bool;

/// The text of the URL that `location` designates relative to `base`, or
/// `None` when it designates none.
pub uninterp spec fn url_join(base: Seq<char>, location: Seq<char>) -> Option<Seq<char>>;

/// Whether `s` parses as an absolute URL, as `reqwest::Url::parse` decides.
#[verifier::external_body]
fn parses_as_url(s: &str) -> (b: bool)
    ensures
        b == url_parses(s@),
{
    reqwest::Url::parse(s).is_ok()
}

/// `location` resolved against `base`, as `reqwest::Url::join` resolves it,
/// written out as text.
#[verifier::external_body]
fn joined_url(base: &str, location: &str) -> (r: Option<String>)
    requires
        url_parses(base@),
    ensures
        match url_join(base@, location@) {
            Some(t) => r matches Some(u) && u@ == t,
            None => r is None,
        },
{
    match reqwest::Url::parse(base) {
        Ok(u) => match u.join(location) {
            Ok(target) => Some(target.to_string()),
            Err(_) => None,
        },
        Err(_) => None,
    }
}

/// Why a release could not be fetched.
#[derive(Debug, Clone, Copy, PartialEq, Eq, Structural)]
pub enum FetchError {
    NoLink,
    NoLocation,
    UnparsableLink,
    UnparsableTarget,
    TooManyRedirects,
}

impl FetchError {
    /// The text of the error.
    pub fn message(self) -> (m: &'static str)
        ensures
            m@ == (match self {
                FetchError::NoLink => "this release exposes neither a download link nor a magnet"@,
                FetchError::NoLocation => "redirect without a usable Location header"@,
                FetchError::UnparsableLink => "unparsable download link"@,
                FetchError::UnparsableTarget => "unparsable redirect target"@,
                FetchError::TooManyRedirects => "too many redirects on the download link"@,
            }),
    {
        match self {
            FetchError::NoLink => "this release exposes neither a download link nor a magnet",
            FetchError::NoLocation => "redirect without a usable Location header",
            FetchError::UnparsableLink => "unparsable download link",
            FetchError::UnparsableTarget => "unparsable redirect target",
            FetchError::TooManyRedirects => "too many redirects on the download link",
        }
    }
}

/// The view of an optional text.
pub open spec fn opt_text(o: Option<String>) -> Option<Seq<char>> {
    match o {
        Some(s) => Some(s@),
        None => None,
    }
}

/// Where fetching a release starts: its download link, else its magnet.
pub fn first_link(release: &Release) -> (r: Result<String, FetchError>)
    ensures
        match (opt_text(release.download_url), opt_text(release.magnet_url)) {
            (Some(d), _) => r matches Ok(u) && u@ == d,
            (None, Some(m)) => r matches Ok(u) && u@ == m,
            (None, None) => r == Err::<String, FetchError>(FetchError::NoLink),
        },
{
    match &release.download_url {
        Some(d) => Ok(d.clone()),
        None => match &release.magnet_url {
            Some(m) => Ok(m.clone()),
            None => Err(FetchError::NoLink),
        },
    }
}

/// What to do next with a link, after `requests` requests already made.
#[derive(Debug, Clone, PartialEq, Eq)]
pub enum FetchStep {
    /// The link is a magnet: it is the download.
    Deliver(Download),
    /// Request this URL.
    Request(String),
    /// Stop with this error.
    GiveUp(FetchError),
}

/// The next step: give up once the request budget is spent, hand a magnet
/// over as it is, and request anything else.
pub fn fetch_step(url: String, requests: usize) -> (r: FetchStep)
    ensures
        requests >= MAX_REDIRECTS ==> r == FetchStep::GiveUp(FetchError::TooManyRedirects),
        requests < MAX_REDIRECTS && starts_with(url@, "magnet:"@) ==> r == FetchStep::Deliver(
            Download::Magnet(url),
        ),
        requests < MAX_REDIRECTS && !starts_with(url@, "magnet:"@) ==> r == FetchStep::Request(
            url,
        ),
{
    if requests >= MAX_REDIRECTS {
        FetchStep::GiveUp(FetchError::TooManyRedirects)
    } else if str_starts_with(url.as_str(), "magnet:") {
        FetchStep::Deliver(Download::Magnet(url))
    } else {
        FetchStep::Request(url)
    }
}

/// `r` is where a redirect from `url` with this `Location` leads, or why it
/// leads nowhere.
pub open spec fn redirects_to(url: Seq<char>, location: Option<&str>, r: Result<String, FetchError>) -> bool {
    match location {
        None => r == Err::<String, FetchError>(FetchError::NoLocation),
        Some(l) => if !url_parses(url) {
            r == Err::<String, FetchError>(FetchError::UnparsableLink)
        } else {
            match url_join(url, l@) {
                Some(t) => r matches Ok(u) && u@ == t,
                None => r == Err::<String, FetchError>(FetchError::UnparsableTarget),
            }
        },
    }
}

/// Where a redirect from `url` leads: its `Location`, which may be relative,
/// resolved against `url`. A relative target joins the link; an absolute one,
/// a magnet included, stays as it is.
pub fn follow_redirect(url: &str, location: Option<&str>) -> (r: Result<String, FetchError>)
    ensures
        redirects_to(url@, location, r),
{
    let location = match location {
        Some(l) => l,
        None => {
            return Err(FetchError::NoLocation);
        },
    };
    if !parses_as_url(url) {
        return Err(FetchError::UnparsableLink);
    }
    match joined_url(url, location) {
        Some(u) => Ok(u),
        None => Err(FetchError::UnparsableTarget),
    }
}

/// What the answer to a download request means: a redirection leads on to
/// where its `Location` points (`Some`); any other answer carries the file
/// itself (`None`).
pub fn after_response(url: &str, redirection: bool, location: Option<&str>) -> (r: Result<
    Option<String>,
    FetchError,
>)
    ensures
        !redirection ==> r == Ok::<Option<String>, FetchError>(None),
        redirection ==> match r {
            Ok(Some(t)) => redirects_to(url@, location, Ok::<String, FetchError>(t)),
            Ok(None) => false,
            Err(e) => redirects_to(url@, location, Err::<String, FetchError>(e)),
        },
{
    if redirection {
        match follow_redirect(url, location) {
            Ok(t) => Ok(Some(t)),
            Err(e) => Err(e),
        }
    } else {
        Ok(None)
    }
}

/// The text of a refused request: Prowlarr answers 401 to a wrong API key,
/// and any other status is not a refusal.
pub fn refusal(status: u16) -> (r: Option<&'static str>)
    ensures
        r is Some <==> status == 401,
        r matches Some(m) ==> m@ == "Prowlarr rejected the API key (401)"@,
{
    if status == 401 {
        Some("Prowlarr rejected the API key (401)")
    } else {
        None
    }
}

/// `out` is `raw` with its title made readable again, every other field kept.
pub open spec fn is_repaired_release(out: Release, raw: Release) -> bool {
    &&& out.title@ == repaired(raw.title@, MAX_REPAIR_PASSES as nat)
    &&& out.guid == raw.guid
    &&& out.indexer_id == raw.indexer_id
    &&& out.indexer == raw.indexer
    &&& out.size == raw.size
    &&& out.seeders == raw.seeders
    &&& out.leechers == raw.leechers
    &&& out.download_url == raw.download_url
    &&& out.magnet_url == raw.magnet_url
    &&& out.protocol == raw.protocol
}

/// `out` is `raw` release by release, each with its title repaired.
pub open spec fn is_repaired_list(out: Seq<Release>, raw: Seq<Release>) -> bool {
    &&& out.len() == raw.len()
    &&& forall|i: int| 0 <= i < raw.len() ==> is_repaired_release(#[trigger] out[i], raw[i])
}

/// The releases of a search as the bot lists them: each title made readable
/// again, best seeded first, keeping Prowlarr's order among releases with as
/// many seeders.
pub fn search_results(found: Vec<Release>) -> (r: Vec<Release>)
    ensures
        exists|readable: Seq<Release>|
            #[trigger] is_repaired_list(readable, found@) && best_seeded_first_order(r@)
                && r@.len() == readable.len() && forall|k: nat|
                #[trigger] r@.filter(seeded(k)) == readable.filter(seeded(k)),
{
    let mut readable: Vec<Release> = Vec::new();
    let mut i: usize = 0;
    while i < found.len()
        invariant
            i <= found@.len(),
            readable@.len() == i,
            forall|j: int| 0 <= j < i ==> is_repaired_release(#[trigger] readable@[j], found@[j]),
        decreases found@.len() - i,
    {
        let raw = &found[i];
        readable.push(Release {
            title: repair_mojibake(raw.title.as_str()),
            guid: raw.guid.clone(),
            indexer_id: raw.indexer_id,
            indexer: raw.indexer.clone(),
            size: raw.size,
            seeders: raw.seeders,
            leechers: raw.leechers,
            download_url: raw.download_url.clone(),
            magnet_url: raw.magnet_url.clone(),
            protocol: raw.protocol.clone(),
        });
        i = i + 1;
    }
    let ghost mid = readable@;
    assert(is_repaired_list(mid, found@));
    best_seeded_first(readable)
}

} // verus!

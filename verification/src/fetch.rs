//! The paths and URLs a layer's document is fetched over.
//!
//! A layer is given a *slot*, the slot holds the layer's URL in a table shared
//! with the asset reader, and the asset path is
//! `{scheme}://{slot}/{generation}.{extension}`. The generation counter is
//! bumped by every refresh: the path carries it, so an asset cache keyed by
//! path sees a new path, and from the second fetch onward the request URL
//! carries it too, so an HTTP cache keyed by URL sees a new URL. A layer that
//! never refreshes never gets the extra parameter, so a signed or otherwise
//! parameter-sensitive URL still works.
use std::collections::HashMap;

use vstd::prelude::*;

use crate::text::{
    after, contains, contains_char, decimal, field, find_in, lemma_decimal_digits,
    lemma_find_char_bounds, lemma_parse_decimal, lemma_split_at, parse_unsigned,
    parse_unsigned_in, push_char, push_decimal, push_str, chars_of, string_of,
};

verus! {

/// The query parameter a refresh adds to get past the HTTP cache. Named rather
/// than a bare `t` so a server log says where it came from.
pub const CACHE_BUSTER: &'static str = "_terramenta";

/// The part of an asset path after the scheme: `{slot}/{generation}.{extension}`.
pub open spec fn slot_path(slot: nat, generation: nat, extension: Seq<char>) -> Seq<char> {
    decimal(slot) + seq!['/'] + decimal(generation) + seq!['.'] + extension
}

/// The whole asset path: `{scheme}://{slot}/{generation}.{extension}`.
pub open spec fn spec_asset_path(
    scheme: Seq<char>,
    slot: nat,
    generation: nat,
    extension: Seq<char>,
) -> Seq<char> {
    scheme + "://"@ + slot_path(slot, generation, extension)
}

/// The slot and generation a path names: the first `/`-separated segment as a
/// `u64`, and the second, up to its first `.`, as a `u32`. Anything after the
/// second segment is ignored.
pub open spec fn spec_parse_path(path: Seq<char>) -> Option<(u64, u32)> {
    match after(path, '/') {
        None => None,
        Some(rest) => {
            let slot = parse_unsigned(field(path, '/'), u64::MAX as nat);
            let generation = parse_unsigned(field(field(rest, '/'), '.'), u32::MAX as nat);
            if slot is Some && generation is Some {
                Some((slot->0 as u64, generation->0 as u32))
            } else {
                None
            }
        },
    }
}

/// The URL a fetch at one generation asks for: the URL itself for the first
/// fetch, and the URL with the cache-busting parameter appended for every
/// refetch — after an `&` when the URL already has a query, a `?` otherwise.
pub open spec fn spec_request_url(url: Seq<char>, generation: nat) -> Seq<char> {
    if generation == 0 {
        url
    } else {
        url + seq![
            if contains_char(url, '?') {
                '&'
            } else {
                '?'
            },
        ] + CACHE_BUSTER@ + seq!['='] + decimal(generation)
    }
}

/// The path one slot's document is fetched over, at one generation.
///
/// The extension is what picks the loader, so it is the caller's.
pub fn asset_path(scheme: &str, slot: u64, generation: u32, extension: &str) -> (path: String)
    ensures
        path@ == spec_asset_path(scheme@, slot as nat, generation as nat, extension@),
{
    let mut path = String::new();
    push_str(&mut path, scheme);
    push_str(&mut path, "://");
    push_decimal(&mut path, slot);
    push_char(&mut path, '/');
    push_decimal(&mut path, generation as u64);
    push_char(&mut path, '.');
    push_str(&mut path, extension);
    assert(path@ =~= spec_asset_path(scheme@, slot as nat, generation as nat, extension@));
    path
}

/// Recovers the slot and generation a path refers to.
pub fn parse_path(path: &str) -> (parsed: Option<(u64, u32)>)
    ensures
        parsed == spec_parse_path(path@),
{
    let chars = chars_of(path);
    let n = chars.len();
    let slash = find_in(&chars, 0, n, '/');
    proof {
        assert(chars@.subrange(0, n as int) =~= path@);
        lemma_find_char_bounds(path@, '/');
        assert(field(path@, '/') =~= chars@.subrange(0, slash as int));
    }
    if slash == n {
        return None;
    }
    let slot = parse_unsigned_in(&chars, 0, slash, u64::MAX);
    let ghost rest = path@.skip(slash + 1);
    assert(rest =~= chars@.subrange(slash + 1, n as int));
    let end = find_in(&chars, slash + 1, n, '/');
    assert(field(rest, '/') =~= chars@.subrange(slash + 1, end as int));
    let dot = find_in(&chars, slash + 1, end, '.');
    assert(field(field(rest, '/'), '.') =~= chars@.subrange(slash + 1, dot as int));
    let generation = parse_unsigned_in(&chars, slash + 1, dot, u32::MAX as u64);
    match (slot, generation) {
        (Some(slot), Some(generation)) => Some((slot, generation as u32)),
        _ => None,
    }
}

/// Adds the cache-busting parameter a refetch needs — and nothing at all to a
/// first fetch, so a URL that cannot take an extra parameter still works for
/// every layer that is not being refreshed.
pub fn request_url(url: &str, generation: u32) -> (request: String)
    ensures
        request@ == spec_request_url(url@, generation as nat),
{
    let mut request = String::new();
    push_str(&mut request, url);
    if generation == 0 {
        return request;
    }
    let chars = chars_of(url);
    let separator = if contains(&chars, '?') {
        '&'
    } else {
        '?'
    };
    push_char(&mut request, separator);
    push_str(&mut request, CACHE_BUSTER);
    push_char(&mut request, '=');
    push_decimal(&mut request, generation as u64);
    assert(request@ =~= spec_request_url(url@, generation as nat));
    request
}

/// A path written by [`asset_path`] names the slot and the generation it was
/// written with: whatever follows the scheme reads back as the same two
/// numbers, whatever the extension is.
pub proof fn slot_path_round_trip(slot: u64, generation: u32, extension: Seq<char>)
    ensures
        spec_parse_path(slot_path(slot as nat, generation as nat, extension)) == Some(
            (slot, generation),
        ),
{
    let a = decimal(slot as nat);
    let g = decimal(generation as nat);
    let b = g + seq!['.'] + extension;
    let path = slot_path(slot as nat, generation as nat, extension);
    lemma_decimal_digits(slot as nat);
    lemma_decimal_digits(generation as nat);
    assert(path =~= a + seq!['/'] + b);
    lemma_split_at(a, '/', b);
    lemma_parse_decimal(slot as nat, u64::MAX as nat);
    lemma_parse_decimal(generation as nat, u32::MAX as nat);
    // The generation segment reaches at least past the dot, since neither the
    // digits nor the dot are a slash.
    assert forall|j: int| 0 <= j < (g + seq!['.']).len() implies (g + seq!['.'])[j] != '/' by {
        if j < g.len() {
            assert((g + seq!['.'])[j] == g[j]);
        }
    }
    assert(b =~= (g + seq!['.']) + extension);
    lemma_field_keeps_prefix(g + seq!['.'], '/', extension);
    let x = field(b, '/');
    let m = (x.len() - g.len() - 1) as int;
    assert(x =~= g + seq!['.'] + extension.take(m));
    lemma_split_at(g, '.', extension.take(m));
}

/// When a run holds no `c`, the field up to the first `c` keeps all of it.
pub proof fn lemma_field_keeps_prefix(p: Seq<char>, c: char, t: Seq<char>)
    requires
        forall|j: int| 0 <= j < p.len() ==> p[j] != c,
    ensures
        field(p + t, c).len() >= p.len(),
        field(p + t, c) == p + t.take(field(p + t, c).len() - p.len()),
{
    let s = p + t;
    lemma_find_char_bounds(s, c);
    let k = crate::text::find_char(s, c) as int;
    if k < p.len() {
        assert(s[k] == p[k]);
    }
    assert(s.take(k) =~= p + t.take(k - p.len()));
}


// ---------------------------------------------------------------------------
// Routing a request
// ---------------------------------------------------------------------------

/// The two schemes a document can be fetched over.
#[derive(Debug, Clone, Copy, PartialEq, Eq, Structural)]
pub enum WebScheme {
    Http,
    Https,
}

/// Whether `://` starts at `i`.
pub open spec fn separator_at(url: Seq<char>, i: int) -> bool {
    0 <= i && i + 3 <= url.len() && url[i] == ':' && url[i + 1] == '/' && url[i + 2] == '/'
}

/// Where the first `://` starts, if there is one.
pub open spec fn first_separator(url: Seq<char>) -> Option<int> {
    if exists|i: int| #[trigger] separator_at(url, i) {
        Some(choose|i: int| #[trigger] separator_at(url, i) && forall|j: int| 0 <= j < i ==> !separator_at(url, j))
    } else {
        None
    }
}

/// The scheme a URL names before its first `://`, if it is one a document
/// can be fetched over, and everything after it — which is what a web reader
/// is handed, since it puts the scheme back itself.
pub open spec fn spec_split_scheme(url: Seq<char>) -> Option<(WebScheme, Seq<char>)> {
    match first_separator(url) {
        Some(i) => if url.take(i) == "https"@ {
            Some((WebScheme::Https, url.skip(i + 3)))
        } else if url.take(i) == "http"@ {
            Some((WebScheme::Http, url.skip(i + 3)))
        } else {
            None
        },
        None => None,
    }
}

proof fn lemma_first_separator(url: Seq<char>, k: int)
    requires
        separator_at(url, k),
        forall|j: int| 0 <= j < k ==> !separator_at(url, j),
    ensures
        first_separator(url) == Some(k),
{
    let c = choose|i: int| #[trigger] separator_at(url, i) && forall|j: int| 0 <= j < i ==> !separator_at(url, j);
    assert(separator_at(url, k) && forall|j: int| 0 <= j < k ==> !separator_at(url, j));
    if c < k {
        assert(!separator_at(url, c));
    }
    if c > k {
        assert(!separator_at(url, k));
    }
}

/// The scheme before a `://` at `i`, and everything after it.
fn scheme_and_rest(chars: &Vec<char>, url: &str, i: usize) -> (split: Option<(WebScheme, String)>)
    requires
        chars@ == url@,
        first_separator(url@) == Some(i as int),
        separator_at(url@, i as int),
    ensures
        match (split, spec_split_scheme(url@)) {
            (Some((scheme, rest)), Some((spec_scheme, spec_rest))) => scheme == spec_scheme && rest@ == spec_rest,
            (None, None) => true,
            _ => false,
        },
{
    let n = chars.len();
    let ghost scheme = url@.take(i as int);
    let https = i == 5 && chars[0] == 'h' && chars[1] == 't' && chars[2] == 't' && chars[3] == 'p'
        && chars[4] == 's';
    let http = i == 4 && chars[0] == 'h' && chars[1] == 't' && chars[2] == 't' && chars[3] == 'p';
    proof {
        reveal_strlit("https");
        reveal_strlit("http");
        if https {
            assert(scheme =~= "https"@);
        } else if scheme == "https"@ {
            assert(scheme.len() == 5);
            assert(chars@[0] == scheme[0] && chars@[1] == scheme[1] && chars@[2] == scheme[2]
                && chars@[3] == scheme[3] && chars@[4] == scheme[4]);
        }
        if http {
            assert(scheme =~= "http"@);
        } else if scheme == "http"@ {
            assert(scheme.len() == 4);
            assert(chars@[0] == scheme[0] && chars@[1] == scheme[1] && chars@[2] == scheme[2]
                && chars@[3] == scheme[3]);
        }
    }
    if !https && !http {
        return None;
    }
    let mut rest: Vec<char> = Vec::new();
    let mut k: usize = i + 3;
    while k < n
        invariant
            chars@ == url@,
            n == chars@.len(),
            i + 3 <= k <= n,
            rest@ == url@.subrange(i + 3, k as int),
        decreases n - k,
    {
        rest.push(chars[k]);
        k = k + 1;
        assert(rest@ =~= url@.subrange(i + 3, k as int));
    }
    assert(url@.skip(i + 3) =~= url@.subrange(i + 3, n as int));
    let rest = string_of(&rest);
    if https {
        Some((WebScheme::Https, rest))
    } else {
        Some((WebScheme::Http, rest))
    }
}

/// Splits a URL at its first `://` into a scheme a document can be fetched
/// over and the rest.
pub fn split_scheme(url: &str) -> (split: Option<(WebScheme, String)>)
    ensures
        match (split, spec_split_scheme(url@)) {
            (Some((scheme, rest)), Some((spec_scheme, spec_rest))) => scheme == spec_scheme && rest@ == spec_rest,
            (None, None) => true,
            _ => false,
        },
{
    let chars = chars_of(url);
    let n = chars.len();
    let mut i: usize = 0;
    while i < n && n - i >= 3
        invariant
            chars@ == url@,
            n == chars@.len(),
            i <= n,
            forall|j: int| 0 <= j < i ==> !separator_at(url@, j),
        decreases n - i,
    {
        if chars[i] == ':' && chars[i + 1] == '/' && chars[i + 2] == '/' {
            proof {
                lemma_first_separator(url@, i as int);
            }
            return scheme_and_rest(&chars, url, i);
        }
        i = i + 1;
    }
    proof {
        assert forall|j: int| !separator_at(url@, j) by {
            if 0 <= j < i {
            }
        }
    }
    None
}

/// The URL behind each slot, shared with whatever fetches documents.
pub struct SlotUrls {
    urls: HashMap<u64, String>,
}

impl SlotUrls {
    /// Each slot's URL, as text.
    pub closed spec fn view(&self) -> Map<u64, Seq<char>> {
        Map::new(|slot: u64| self.urls@.contains_key(slot), |slot: u64| self.urls@[slot]@)
    }

    pub fn new() -> (urls: SlotUrls)
        ensures
            urls@ == Map::<u64, Seq<char>>::empty(),
    {
        let urls = SlotUrls { urls: HashMap::new() };
        assert(urls@ =~= Map::<u64, Seq<char>>::empty());
        urls
    }

    /// Gives a slot its URL, replacing any it had.
    pub fn insert(&mut self, slot: u64, url: String)
        ensures
            final(self)@ == old(self)@.insert(slot, url@),
    {
        broadcast use vstd::std_specs::hash::group_hash_axioms;

        let ghost url_view = url@;
        self.urls.insert(slot, url);
        assert(self@ =~= old(self)@.insert(slot, url_view));
    }

    /// Takes a slot's URL away.
    pub fn remove(&mut self, slot: u64)
        ensures
            final(self)@ == old(self)@.remove(slot),
    {
        broadcast use vstd::std_specs::hash::group_hash_axioms;

        self.urls.remove(&slot);
        assert(self@ =~= old(self)@.remove(slot));
    }

    /// The URL a slot holds, if any.
    pub fn get(&self, slot: u64) -> (url: Option<&String>)
        ensures
            match url {
                Some(u) => self@.contains_key(slot) && self@[slot] == u@,
                None => !self@.contains_key(slot),
            },
    {
        broadcast use vstd::std_specs::hash::group_hash_axioms;

        self.urls.get(&slot)
    }
}

/// What a request for an asset path resolves to: the slot and generation the
/// path names, the URL that slot holds with the cache-buster a refetch needs,
/// split into the scheme to fetch over and what the web reader is handed.
/// Nothing for a path that names no slot, a slot that holds no URL, or a URL
/// that is neither `http` nor `https`.
pub open spec fn spec_resolve(path: Seq<char>, urls: Map<u64, Seq<char>>) -> Option<(WebScheme, Seq<char>)> {
    match spec_parse_path(path) {
        Some((slot, generation)) => if urls.contains_key(slot) {
            spec_split_scheme(spec_request_url(urls[slot], generation as nat))
        } else {
            None
        },
        None => None,
    }
}

/// Resolves a request for an asset path: see [`spec_resolve`].
pub fn resolve(path: &str, urls: &SlotUrls) -> (resolved: Option<(WebScheme, String)>)
    ensures
        match (resolved, spec_resolve(path@, urls@)) {
            (Some((scheme, rest)), Some((spec_scheme, spec_rest))) => scheme == spec_scheme && rest@ == spec_rest,
            (None, None) => true,
            _ => false,
        },
{
    let (slot, generation) = parse_path(path)?;
    let url = urls.get(slot)?;
    let request = request_url(url.as_str(), generation);
    split_scheme(request.as_str())
}

} // verus!

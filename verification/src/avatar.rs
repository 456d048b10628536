//! Avatar loading: the per-row request state that keeps late downloads from
//! overriding newer requests, the bounded first-in-first-out image cache, the
//! URL policy, and the checks applied to downloaded bodies and images.
use vstd::prelude::*;
use vstd::string::StringExecFns;

use crate::text::str_eq;

verus! {

// ----- request state -----

/// Where a row's avatar stands.
#[derive(Clone, Copy, Debug, PartialEq, Eq, Structural)]
pub enum LoadStatus {
    Placeholder,
    Loading,
    Loaded,
    Failed,
}

/// The avatar request of one row: the URL it shows, the generation of the
/// latest request, and where that request stands.
#[derive(Debug)]
pub struct AvatarState {
    pub url: String,
    pub generation: u64,
    pub status: LoadStatus,
}

/// An avatar request state as plain values.
pub struct AvatarStateView {
    pub url: Seq<char>,
    pub generation: u64,
    pub status: LoadStatus,
}

impl View for AvatarState {
    type V = AvatarStateView;

    open spec fn view(&self) -> AvatarStateView {
        AvatarStateView { url: self.url@, generation: self.generation, status: self.status }
    }
}

/// The generation after `g` (wrapping at the end of the range).
pub open spec fn next_generation(g: u64) -> u64 {
    if g == u64::MAX {
        0
    } else {
        (g + 1) as u64
    }
}

/// The generation of the request in flight, if any.
pub open spec fn spec_loading_generation(s: AvatarStateView) -> Option<u64> {
    if s.status == LoadStatus::Loading {
        Some(s.generation)
    } else {
        None
    }
}

/// The state of a new row for a URL.
pub open spec fn spec_new_state(url: Seq<char>) -> AvatarStateView {
    AvatarStateView {
        url,
        generation: if url.len() == 0 {
            0
        } else {
            1
        },
        status: if url.len() == 0 {
            LoadStatus::Placeholder
        } else {
            LoadStatus::Loading
        },
    }
}

/// Whether asking for `url` is a duplicate of what the row already shows or
/// loads (an empty URL is never requested again).
pub open spec fn is_duplicate_request(s: AvatarStateView, url: Seq<char>) -> bool {
    s.url == url && (url.len() == 0 || s.status == LoadStatus::Loading || s.status
        == LoadStatus::Loaded)
}

/// The state after asking for `url`.
pub open spec fn spec_request(s: AvatarStateView, url: Seq<char>) -> AvatarStateView {
    if is_duplicate_request(s, url) {
        s
    } else {
        AvatarStateView {
            url,
            generation: next_generation(s.generation),
            status: if url.len() == 0 {
                LoadStatus::Placeholder
            } else {
                LoadStatus::Loading
            },
        }
    }
}

/// Whether a download result of `generation` is for the request in flight.
pub open spec fn is_current(s: AvatarStateView, generation: u64) -> bool {
    s.generation == generation && s.status == LoadStatus::Loading
}

/// The state after a download of `generation` ended (`loaded` tells whether it
/// produced an image).
pub open spec fn spec_finish(s: AvatarStateView, generation: u64, loaded: bool) -> AvatarStateView {
    if is_current(s, generation) {
        AvatarStateView {
            url: s.url,
            generation: s.generation,
            status: if loaded {
                LoadStatus::Loaded
            } else {
                LoadStatus::Failed
            },
        }
    } else {
        s
    }
}

impl AvatarState {
    /// A row showing `url`: loading it, or the placeholder for an empty URL.
    pub fn new(url: &str) -> (res: AvatarState)
        ensures
            res@ == spec_new_state(url@),
    {
        let empty = url.is_empty();
        AvatarState {
            url: String::from_str(url),
            generation: if empty {
                0
            } else {
                1
            },
            status: if empty {
                LoadStatus::Placeholder
            } else {
                LoadStatus::Loading
            },
        }
    }

    /// The generation of the request in flight, if any.
    pub fn loading_generation(&self) -> (res: Option<u64>)
        ensures
            res == spec_loading_generation(self@),
    {
        if self.status == LoadStatus::Loading {
            Some(self.generation)
        } else {
            None
        }
    }

    /// Asks for `url`. Returns the generation of a download to start, or
    /// nothing when the request duplicates the current one or the URL is empty.
    pub fn request(&mut self, url: &str) -> (res: Option<u64>)
        ensures
            final(self)@ == spec_request(old(self)@, url@),
            res == (if is_duplicate_request(old(self)@, url@) {
                None
            } else {
                spec_loading_generation(final(self)@)
            }),
            res is None <==> (is_duplicate_request(old(self)@, url@) || url@.len() == 0),
    {
        let same = str_eq(self.url.as_str(), url);
        let empty = url.is_empty();
        if same && (empty || self.status == LoadStatus::Loading || self.status == LoadStatus::Loaded) {
            return None;
        }
        if !same {
            self.url = String::from_str(url);
        }
        self.generation = self.generation.wrapping_add(1);
        self.status = if empty {
            LoadStatus::Placeholder
        } else {
            LoadStatus::Loading
        };
        self.loading_generation()
    }

    /// Records the end of the download of `generation`. Returns whether it was
    /// the request in flight; results of older requests change nothing.
    pub fn finish(&mut self, generation: u64, loaded: bool) -> (res: bool)
        ensures
            res == is_current(old(self)@, generation),
            final(self)@ == spec_finish(old(self)@, generation, loaded),
    {
        if self.generation != generation || self.status != LoadStatus::Loading {
            return false;
        }
        self.status = if loaded {
            LoadStatus::Loaded
        } else {
            LoadStatus::Failed
        };
        true
    }
}

/// Law: a new request makes every download started before it stale. A result
/// carrying any earlier generation changes nothing, even when the URL comes
/// back to an earlier one (A, then B, then A again).
pub proof fn lemma_request_invalidates_older(
    s: AvatarStateView,
    url: Seq<char>,
    earlier: u64,
    loaded: bool,
)
    requires
        !is_duplicate_request(s, url),
        s.generation < u64::MAX,
        earlier <= s.generation,
    ensures
        !is_current(spec_request(s, url), earlier),
        spec_finish(spec_request(s, url), earlier, loaded) == spec_request(s, url),
        spec_request(s, url).generation > s.generation,
{
}

/// Law: a download is recorded at most once; a second result for the same
/// generation changes nothing.
pub proof fn lemma_finish_once(s: AvatarStateView, generation: u64, first: bool, second: bool)
    requires
        is_current(s, generation),
    ensures
        !is_current(spec_finish(s, generation, first), generation),
        spec_finish(spec_finish(s, generation, first), generation, second) == spec_finish(
            s,
            generation,
            first,
        ),
{
}

/// Law: once an avatar is loaded, asking for the same URL again starts nothing.
pub proof fn lemma_loaded_not_refetched(s: AvatarStateView, generation: u64)
    requires
        is_current(s, generation),
    ensures
        is_duplicate_request(spec_finish(s, generation, true), s.url),
        spec_request(spec_finish(s, generation, true), s.url) == spec_finish(s, generation, true),
{
}

/// Law: a failed download can be retried once; the retry is a new request,
/// and asking again while it runs starts nothing.
pub proof fn lemma_failed_retry(s: AvatarStateView, generation: u64)
    requires
        is_current(s, generation),
        s.url.len() > 0,
    ensures
        !is_duplicate_request(spec_finish(s, generation, false), s.url),
        spec_loading_generation(spec_request(spec_finish(s, generation, false), s.url)) == Some(
            next_generation(s.generation),
        ),
        is_duplicate_request(spec_request(spec_finish(s, generation, false), s.url), s.url),
{
}

/// Law: clearing the URL shows the placeholder and makes any download in
/// flight stale.
pub proof fn lemma_clear_invalidates(s: AvatarStateView, generation: u64, loaded: bool)
    requires
        s.url.len() > 0,
        s.generation < u64::MAX,
        generation <= s.generation,
    ensures
        spec_request(s, Seq::empty()).status == LoadStatus::Placeholder,
        spec_finish(spec_request(s, Seq::empty()), generation, loaded) == spec_request(
            s,
            Seq::empty(),
        ),
{
}

// ----- image cache -----

/// A bounded cache keyed by avatar URL. When a new URL arrives and the cache
/// is full, the oldest entries are dropped; refreshing a present URL keeps its
/// place.
pub struct AvatarCache<V> {
    capacity: usize,
    entries: Vec<(String, V)>,
}

/// Cache entries as plain values, oldest first.
pub open spec fn entry_views<V>(entries: Seq<(String, V)>) -> Seq<(Seq<char>, V)> {
    entries.map_values(|e: (String, V)| (e.0@, e.1))
}

/// No URL occurs twice.
pub open spec fn distinct_keys<V>(entries: Seq<(Seq<char>, V)>) -> bool {
    forall|a: int, b: int| 0 <= a < b < entries.len() ==> entries[a].0 != entries[b].0
}

/// The most entries a cache of this capacity holds (one even at capacity 0).
pub open spec fn bound(capacity: nat) -> nat {
    if capacity == 0 {
        1
    } else {
        capacity
    }
}

/// The value stored for a URL.
pub open spec fn lookup<V>(entries: Seq<(Seq<char>, V)>, key: Seq<char>) -> Option<V> {
    if exists|i: int| 0 <= i < entries.len() && entries[i].0 == key {
        let i = choose|i: int| 0 <= i < entries.len() && entries[i].0 == key;
        Some(entries[i].1)
    } else {
        None
    }
}

/// The entries after storing `value` under `key`: replaced in place when the
/// key is present; otherwise the oldest entries are dropped until there is
/// room, and the new entry goes last.
pub open spec fn spec_put<V>(
    entries: Seq<(Seq<char>, V)>,
    capacity: nat,
    key: Seq<char>,
    value: V,
) -> Seq<(Seq<char>, V)> {
    if exists|i: int| 0 <= i < entries.len() && entries[i].0 == key {
        let i = choose|i: int| 0 <= i < entries.len() && entries[i].0 == key;
        entries.update(i, (key, value))
    } else if entries.len() >= capacity {
        let evicted = if capacity == 0 {
            entries.len() as int
        } else {
            entries.len() - capacity + 1
        };
        entries.skip(evicted).push((key, value))
    } else {
        entries.push((key, value))
    }
}

impl<V> View for AvatarCache<V> {
    type V = Seq<(Seq<char>, V)>;

    closed spec fn view(&self) -> Seq<(Seq<char>, V)> {
        entry_views(self.entries@)
    }
}

impl<V> AvatarCache<V> {
    #[verifier::type_invariant]
    closed spec fn inv(self) -> bool {
        &&& distinct_keys(entry_views(self.entries@))
        &&& self.entries.len() <= bound(self.capacity as nat)
    }

    /// The capacity the cache was made with.
    pub closed spec fn capacity(self) -> nat {
        self.capacity as nat
    }

    /// An empty cache holding at most `capacity` entries.
    pub fn new(capacity: usize) -> (res: Self)
        ensures
            res@ == Seq::<(Seq<char>, V)>::empty(),
            res.capacity() == capacity,
            distinct_keys(res@),
    {
        let res = AvatarCache { capacity, entries: Vec::new() };
        assert(entry_views(res.entries@) =~= Seq::<(Seq<char>, V)>::empty());
        res
    }

    fn position(&self, key: &str) -> (res: Option<usize>)
        ensures
            match res {
                Some(i) => i < self@.len() && self@[i as int].0 == key@,
                None => forall|i: int| 0 <= i < self@.len() ==> self@[i].0 != key@,
            },
    {
        let mut i: usize = 0;
        while i < self.entries.len()
            invariant
                i <= self.entries.len(),
                forall|k: int| 0 <= k < i ==> entry_views(self.entries@)[k].0 != key@,
            decreases self.entries.len() - i,
        {
            if str_eq(self.entries[i].0.as_str(), key) {
                return Some(i);
            }
            i += 1;
        }
        None
    }

    /// The value cached for a URL, if any.
    pub fn get(&self, key: &str) -> (res: Option<&V>)
        ensures
            match lookup(self@, key@) {
                Some(v) => res == Some(&v),
                None => res is None,
            },
            distinct_keys(self@),
            self@.len() <= bound(self.capacity()),
    {
        proof {
            use_type_invariant(self);
        }
        match self.position(key) {
            Some(i) => {
                proof {
                    let j = choose|j: int| 0 <= j < self@.len() && self@[j].0 == key@;
                    assert(j == i);
                }
                Some(&self.entries[i].1)
            },
            None => None,
        }
    }

    /// Stores `value` under `key` (see `spec_put`).
    pub fn put(&mut self, key: String, value: V)
        ensures
            final(self)@ == spec_put(old(self)@, old(self).capacity(), key@, value),
            final(self).capacity() == old(self).capacity(),
            distinct_keys(final(self)@),
            final(self)@.len() <= bound(final(self).capacity()),
    {
        proof {
            use_type_invariant(&*self);
        }
        let ghost old_view = self@;
        let capacity = self.capacity;
        let found = self.position(key.as_str());
        let mut entries: Vec<(String, V)> = Vec::new();
        std::mem::swap(&mut entries, &mut self.entries);
        assert(entry_views(entries@) == old_view);
        match found {
            Some(i) => {
                proof {
                    let j = choose|j: int| 0 <= j < old_view.len() && old_view[j].0 == key@;
                    assert(j == i);
                }
                entries.set(i, (key, value));
                assert(entry_views(entries@) =~= old_view.update(i as int, (key@, value)));
                assert forall|a: int, b: int|
                    0 <= a < b < entries.len() implies entry_views(entries@)[a].0
                        != entry_views(entries@)[b].0 by {
                    assert(old_view[a].0 != old_view[b].0);
                }
            },
            None => {
                let ghost removed: int = 0;
                assert(old_view.skip(0) =~= old_view);
                while entries.len() >= capacity && entries.len() > 0
                    invariant
                        entries.len() <= bound(capacity as nat),
                        0 <= removed <= old_view.len(),
                        entry_views(entries@) == old_view.skip(removed),
                        entries.len() == old_view.len() - removed,
                        removed > 0 ==> old_view.len() - (removed - 1) >= capacity,
                    decreases entries.len(),
                {
                    let ghost before = entries@;
                    entries.remove(0);
                    assert(entries@ =~= before.subrange(1, before.len() as int));
                    assert forall|k: int| 0 <= k < entries.len() implies entry_views(entries@)[k]
                        == old_view.skip(removed + 1)[k] by {
                        assert(entries@[k] == before[k + 1]);
                        assert(entry_views(before)[k + 1] == old_view.skip(removed)[k + 1]);
                    }
                    assert(entry_views(entries@) =~= old_view.skip(removed + 1));
                    proof {
                        removed = removed + 1;
                    }
                }
                proof {
                    if old_view.len() >= capacity {
                        if capacity == 0 {
                            assert(removed == old_view.len());
                        } else {
                            assert(removed == old_view.len() - capacity + 1);
                        }
                    } else {
                        assert(removed == 0);
                    }
                }
                let ghost kept = entry_views(entries@);
                entries.push((key, value));
                assert(entry_views(entries@) =~= kept.push((key@, value)));
                assert forall|a: int, b: int|
                    0 <= a < b < entries.len() implies entry_views(entries@)[a].0
                        != entry_views(entries@)[b].0 by {
                    if b < kept.len() {
                        assert(kept[a] == old_view[a + removed]);
                        assert(kept[b] == old_view[b + removed]);
                    } else {
                        assert(kept[a] == old_view[a + removed]);
                    }
                }
            },
        }
        self.entries = entries;
    }

    /// Number of cached entries.
    pub fn len(&self) -> (res: usize)
        ensures
            res == self@.len(),
            res <= bound(self.capacity()),
            distinct_keys(self@),
    {
        proof {
            use_type_invariant(self);
        }
        self.entries.len()
    }
}

/// In entries without repeated keys, the value looked up for the key at
/// index `i` is the value stored there.
pub proof fn lemma_lookup_at<V>(entries: Seq<(Seq<char>, V)>, i: int)
    requires
        distinct_keys(entries),
        0 <= i < entries.len(),
    ensures
        lookup(entries, entries[i].0) == Some(entries[i].1),
{
    let j = choose|j: int| 0 <= j < entries.len() && entries[j].0 == entries[i].0;
    assert(j == i);
}

/// Law: what was just stored is what a lookup gives back.
pub proof fn lemma_put_then_get<V>(
    entries: Seq<(Seq<char>, V)>,
    capacity: nat,
    key: Seq<char>,
    value: V,
)
    requires
        distinct_keys(entries),
    ensures
        lookup(spec_put(entries, capacity, key, value), key) == Some(value),
        distinct_keys(spec_put(entries, capacity, key, value)),
{
    let r = spec_put(entries, capacity, key, value);
    if exists|i: int| 0 <= i < entries.len() && entries[i].0 == key {
        let i = choose|i: int| 0 <= i < entries.len() && entries[i].0 == key;
        assert forall|a: int, b: int| 0 <= a < b < r.len() implies r[a].0 != r[b].0 by {
            assert(entries[a].0 != entries[b].0);
        }
        lemma_lookup_at(r, i);
    } else {
        let evicted = if entries.len() >= capacity {
            if capacity == 0 {
                entries.len() as int
            } else {
                entries.len() - capacity + 1
            }
        } else {
            0
        };
        let kept = entries.skip(evicted);
        assert(r =~= kept.push((key, value)));
        assert forall|a: int, b: int| 0 <= a < b < r.len() implies r[a].0 != r[b].0 by {
            assert(kept[a] == entries[a + evicted]);
            if b < kept.len() {
                assert(kept[b] == entries[b + evicted]);
            }
        }
        lemma_lookup_at(r, r.len() - 1);
    }
}

/// Law: the cache never holds more than its capacity (one entry at capacity 0).
pub proof fn lemma_put_bounded<V>(
    entries: Seq<(Seq<char>, V)>,
    capacity: nat,
    key: Seq<char>,
    value: V,
)
    requires
        entries.len() <= bound(capacity),
    ensures
        spec_put(entries, capacity, key, value).len() <= bound(capacity),
{
}

/// Law: a new URL in a full cache evicts exactly the oldest entry; every other
/// entry stays with its value.
pub proof fn lemma_put_evicts_oldest<V>(
    entries: Seq<(Seq<char>, V)>,
    capacity: nat,
    key: Seq<char>,
    value: V,
)
    requires
        distinct_keys(entries),
        capacity > 0,
        entries.len() == capacity,
        forall|i: int| 0 <= i < entries.len() ==> entries[i].0 != key,
    ensures
        lookup(spec_put(entries, capacity, key, value), entries[0].0) is None,
        forall|i: int|
            1 <= i < entries.len() ==> lookup(spec_put(entries, capacity, key, value), #[trigger] entries[i].0)
                == Some(entries[i].1),
        spec_put(entries, capacity, key, value).len() == capacity,
{
    let r = spec_put(entries, capacity, key, value);
    assert(r =~= entries.skip(1).push((key, value)));
    lemma_put_then_get(entries, capacity, key, value);
    assert forall|i: int| 1 <= i < entries.len() implies lookup(r, #[trigger] entries[i].0) == Some(entries[i].1) by {
        assert(r[i - 1] == entries[i]);
        lemma_lookup_at(r, i - 1);
    }
    assert forall|j: int| 0 <= j < r.len() implies r[j].0 != entries[0].0 by {
        if j < r.len() - 1 {
            assert(r[j] == entries[j + 1]);
        }
    }
}

/// Law: storing under a URL already present keeps every entry in place and
/// changes only that URL's value.
pub proof fn lemma_put_refresh<V>(
    entries: Seq<(Seq<char>, V)>,
    capacity: nat,
    i: int,
    value: V,
)
    requires
        distinct_keys(entries),
        0 <= i < entries.len(),
    ensures
        spec_put(entries, capacity, entries[i].0, value) == entries.update(i, (entries[i].0, value)),
{
    let key = entries[i].0;
    let j = choose|j: int| 0 <= j < entries.len() && entries[j].0 == key;
    assert(j == i);
}

/// Law: a new URL in a cache with room is added last and nothing is dropped.
pub proof fn lemma_put_with_room<V>(
    entries: Seq<(Seq<char>, V)>,
    capacity: nat,
    key: Seq<char>,
    value: V,
)
    requires
        entries.len() < capacity,
        forall|i: int| 0 <= i < entries.len() ==> entries[i].0 != key,
    ensures
        spec_put(entries, capacity, key, value) == entries.push((key, value)),
{
}

/// Law: which requests start a download. A different non-empty URL always
/// does, with the next generation; the same URL does only when it is not
/// loading or loaded; clearing the URL starts nothing and shows the
/// placeholder, and clearing it again changes nothing.
pub proof fn lemma_request_starts(s: AvatarStateView, url: Seq<char>)
    ensures
        s.url != url && url.len() > 0 ==> spec_loading_generation(spec_request(s, url)) == Some(
            next_generation(s.generation),
        ) && spec_request(s, url).url == url,
        s.url == url && url.len() > 0 ==> (is_duplicate_request(s, url) <==> (s.status
            == LoadStatus::Loading || s.status == LoadStatus::Loaded)),
        url.len() == 0 && s.url.len() > 0 ==> spec_loading_generation(spec_request(s, url)) is None
            && spec_request(s, url).status == LoadStatus::Placeholder && spec_request(s, url).url
            == url,
        url.len() == 0 && s.url.len() == 0 ==> spec_request(s, url) == s,
        spec_new_state(url).url == url,
        url.len() > 0 ==> spec_loading_generation(spec_new_state(url)) == Some(1u64),
        url.len() == 0 ==> spec_new_state(url).status == LoadStatus::Placeholder,
        s.generation < u64::MAX ==> next_generation(s.generation) == s.generation + 1,
{
    if url.len() == 0 && s.url.len() == 0 {
        assert(s.url =~= url);
    }
}

/// Law: a download result counts only for the request in flight: it sets
/// the status to loaded or failed and keeps URL and generation; any other
/// result changes nothing.
pub proof fn lemma_finish_meaning(s: AvatarStateView, generation: u64, loaded: bool)
    ensures
        s.status == LoadStatus::Loading && s.generation == generation ==> spec_finish(
            s,
            generation,
            loaded,
        ) == (AvatarStateView {
            url: s.url,
            generation,
            status: if loaded {
                LoadStatus::Loaded
            } else {
                LoadStatus::Failed
            },
        }),
        !(s.status == LoadStatus::Loading && s.generation == generation) ==> spec_finish(
            s,
            generation,
            loaded,
        ) == s,
{
}

// ----- download policy -----

/// Downloads running at once.
pub const FETCH_CONCURRENCY: usize = 8;

/// Entries of the shared image cache.
pub const AVATAR_CACHE_CAPACITY: usize = 128;

/// Largest accepted response body, in bytes.
pub const MAX_AVATAR_RESPONSE_BYTES: usize = 2097152;

/// Largest accepted image width and height, in pixels.
pub const MAX_AVATAR_DIMENSION: u32 = 256;

/// Largest allocation the image decoder may make, in bytes.
pub const MAX_AVATAR_DECODE_BYTES: u64 = 8388608;

/// What `reqwest::Url::parse` yields for a string: scheme, user name,
/// password and host, or nothing when the string is not a URL.
pub uninterp spec fn parsed_url(s: Seq<char>) -> Option<
    (Seq<char>, Seq<char>, Option<Seq<char>>, Option<Seq<char>>),
>;

/// The parts of a URL the avatar policy reads.
pub struct UrlParts {
    pub scheme: String,
    pub username: String,
    pub password: Option<String>,
    pub host: Option<String>,
}

/// Parses a URL with `reqwest::Url::parse` and returns its scheme, user name,
/// password and host. The result depends on the string alone.
#[verifier::external_body]
fn parse_url(s: &str) -> (res: Option<UrlParts>)
    ensures
        match parsed_url(s@) {
            None => res is None,
            Some(p) => res matches Some(r) && r.scheme@ == p.0 && r.username@ == p.1 && (match (
                r.password,
                p.2,
            ) {
                (None, None) => true,
                (Some(x), Some(y)) => x@ == y,
                _ => false,
            }) && (match (r.host, p.3) {
                (None, None) => true,
                (Some(x), Some(y)) => x@ == y,
                _ => false,
            }),
        },
{
    let u = reqwest::Url::parse(s).ok()?;
    Some(UrlParts {
        scheme: u.scheme().to_string(),
        username: u.username().to_string(),
        password: u.password().map(str::to_string),
        host: u.host_str().map(str::to_string),
    })
}

/// Avatar URLs must be `https` URLs on `cdn.discordapp.com` without credentials.
pub open spec fn allowed_url(parts: Option<(Seq<char>, Seq<char>, Option<Seq<char>>, Option<Seq<char>>)>) -> bool {
    match parts {
        Some((scheme, username, password, host)) => {
            &&& scheme == "https"@
            &&& username.len() == 0
            &&& password is None
            &&& host == Some("cdn.discordapp.com"@)
        },
        None => false,
    }
}

/// Whether an avatar may be downloaded from `url`.
pub fn is_allowed_avatar_url(url: &str) -> (res: bool)
    ensures
        res == allowed_url(parsed_url(url@)),
{
    proof {
        reveal_strlit("https");
        reveal_strlit("cdn.discordapp.com");
    }
    match parse_url(url) {
        Some(parts) => {
            let host_ok = match &parts.host {
                Some(h) => str_eq(h.as_str(), "cdn.discordapp.com"),
                None => false,
            };
            str_eq(parts.scheme.as_str(), "https") && parts.username.as_str().is_empty()
                && parts.password.is_none() && host_ok
        },
        None => false,
    }
}

/// Whether a declared response length allows reading the body.
pub fn content_length_acceptable(length: Option<u64>) -> (res: bool)
    ensures
        res == (match length {
            Some(n) => n <= MAX_AVATAR_RESPONSE_BYTES,
            None => true,
        }),
{
    match length {
        Some(n) => n <= 2097152u64,
        None => true,
    }
}

/// Adds a received chunk to the body unless that would exceed the response
/// limit. Returns whether it was added; a refused chunk leaves the body as it was.
pub fn append_chunk(body: &mut Vec<u8>, chunk: &[u8]) -> (accepted: bool)
    ensures
        accepted == (old(body)@.len() + chunk@.len() <= MAX_AVATAR_RESPONSE_BYTES),
        accepted ==> final(body)@ == old(body)@ + chunk@,
        !accepted ==> final(body)@ == old(body)@,
{
    if chunk.len() > MAX_AVATAR_RESPONSE_BYTES || body.len() > MAX_AVATAR_RESPONSE_BYTES - chunk.len() {
        return false;
    }
    let ghost start = body@;
    let mut k: usize = 0;
    while k < chunk.len()
        invariant
            k <= chunk@.len(),
            body@ == start + chunk@.take(k as int),
        decreases chunk.len() - k,
    {
        body.push(chunk[k]);
        assert(chunk@.take(k + 1) =~= chunk@.take(k as int).push(chunk@[k as int]));
        k += 1;
    }
    assert(chunk@.take(chunk@.len() as int) =~= chunk@);
    true
}

// ----- decoding -----

/// What the `image` crate decodes from `bytes` (format guessed from the
/// content, width and height limited to `max_dimension`, allocations to
/// `max_alloc`), converted to RGBA: width, height and pixel bytes.
pub uninterp spec fn decoded_rgba(bytes: Seq<u8>, max_dimension: u32, max_alloc: u64) -> Option<
    (u32, u32, Seq<u8>),
>;

/// Decodes an image with the `image` crate under the given limits and
/// converts it to 8-bit RGBA. The decoder refuses images wider or taller than
/// the limit, and an RGBA buffer holds four bytes per pixel.
#[verifier::external_body]
fn decode_image(bytes: &[u8], max_dimension: u32, max_alloc: u64) -> (res: Option<(u32, u32, Vec<u8>)>)
    ensures
        match decoded_rgba(bytes@, max_dimension, max_alloc) {
            None => res is None,
            Some(d) => res matches Some(r) && r.0 == d.0 && r.1 == d.1 && r.2@ == d.2,
        },
        res matches Some(r) ==> r.0 <= max_dimension && r.1 <= max_dimension && r.2@.len() == r.0
            * r.1 * 4,
{
    let mut reader = image::ImageReader::new(std::io::Cursor::new(bytes)).with_guessed_format().ok()?;
    let mut limits = image::Limits::default();
    limits.max_image_width = Some(max_dimension);
    limits.max_image_height = Some(max_dimension);
    limits.max_alloc = Some(max_alloc);
    reader.limits(limits);
    let rgba = reader.decode().ok()?.to_rgba8();
    let (width, height) = rgba.dimensions();
    Some((width, height, rgba.into_raw()))
}

/// A decoded avatar: RGBA pixels, four bytes each, row by row.
#[derive(Debug)]
pub struct CachedImage {
    pub width: i32,
    pub height: i32,
    pub rgba: Vec<u8>,
}

/// The downloaded bytes could not be decoded within the avatar limits.
#[derive(Debug)]
pub struct ImageRejected;

/// Decodes downloaded avatar bytes into RGBA pixels, refusing images larger
/// than `MAX_AVATAR_DIMENSION` on a side or needing more than
/// `MAX_AVATAR_DECODE_BYTES` to decode.
pub fn decode_rgba(bytes: &[u8]) -> (res: Result<CachedImage, ImageRejected>)
    ensures
        match decoded_rgba(bytes@, MAX_AVATAR_DIMENSION, MAX_AVATAR_DECODE_BYTES) {
            None => res is Err,
            Some(d) => res matches Ok(img) && img.width == d.0 && img.height == d.1 && img.rgba@
                == d.2,
        },
        res matches Ok(img) ==> 0 <= img.width <= MAX_AVATAR_DIMENSION && 0 <= img.height
            <= MAX_AVATAR_DIMENSION && img.rgba@.len() == img.width * img.height * 4,
{
    match decode_image(bytes, MAX_AVATAR_DIMENSION, MAX_AVATAR_DECODE_BYTES) {
        Some((width, height, rgba)) => Ok(
            CachedImage { width: width as i32, height: height as i32, rgba },
        ),
        None => Err(ImageRejected),
    }
}

} // verus!

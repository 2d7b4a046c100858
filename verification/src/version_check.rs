//! Bookkeeping of the SDK versions that responses announce, and of when the user was
//! last told about a newer one.

use vstd::prelude::*;

use crate::errors::opt_view;
use crate::text::{
    bytes_less, bytes_lt, chars_of, decimal, lemma_parse_decimal, parse_u64, parse_unsigned,
    str_eq, u64_to_string,
};
use crate::VERSION;
use vstd::utf8::encode_utf8;

verus! {

/// The name under which this SDK's versions are recorded.
pub const SDK_NAME: &'static str = "rust";

/// How long, in seconds, a notice about a newer version holds before it is repeated.
pub const TWELVE_HOURS_SECS: u64 = 43200;

/// What is recorded of one SDK: the version in use, the latest announced, and the second
/// (decimal text) at which the user was last told.
#[derive(Debug, Clone)]
pub struct VersionEntry {
    pub current: Option<String>,
    pub latest: Option<String>,
    pub last_notified: Option<String>,
}

impl Default for VersionEntry {
    fn default() -> (e: Self)
        ensures
            e.current is None,
            e.latest is None,
            e.last_notified is None,
    {
        VersionEntry { current: None, latest: None, last_notified: None }
    }
}

/// What an entry records, with texts as character sequences.
pub struct EntryView {
    pub current: Option<Seq<char>>,
    pub latest: Option<Seq<char>>,
    pub last_notified: Option<Seq<char>>,
}

impl View for VersionEntry {
    type V = EntryView;

    open spec fn view(&self) -> EntryView {
        EntryView {
            current: opt_view(self.current),
            latest: opt_view(self.latest),
            last_notified: opt_view(self.last_notified),
        }
    }
}

/// The recorded entries, by SDK name; no name occurs twice.
#[derive(Debug)]
pub struct VersionCache {
    entries: Vec<(String, VersionEntry)>,
}

/// The views of the entries.
pub open spec fn cache_view(entries: Seq<(String, VersionEntry)>) -> Seq<(Seq<char>, EntryView)> {
    entries.map_values(|p: (String, VersionEntry)| (p.0@, p.1@))
}

impl View for VersionCache {
    type V = Seq<(Seq<char>, EntryView)>;

    closed spec fn view(&self) -> Seq<(Seq<char>, EntryView)> {
        cache_view(self.entries@)
    }
}

/// The position of the first entry named `name`.
pub open spec fn entry_index(c: Seq<(Seq<char>, EntryView)>, name: Seq<char>) -> Option<int>
    decreases c.len(),
{
    if c.len() == 0 {
        None
    } else if c[0].0 == name {
        Some(0)
    } else {
        match entry_index(c.drop_first(), name) {
            Some(i) => Some(i + 1),
            None => None,
        }
    }
}

pub proof fn lemma_entry_index(c: Seq<(Seq<char>, EntryView)>, name: Seq<char>, i: int)
    requires
        0 <= i <= c.len(),
        forall|j: int| 0 <= j < i ==> c[j].0 != name,
    ensures
        i == c.len() ==> entry_index(c, name) is None,
        i < c.len() && c[i].0 == name ==> entry_index(c, name) == Some(i),
    decreases i,
{
    if i > 0 {
        lemma_entry_index(c.drop_first(), name, i - 1);
    }
}

pub proof fn lemma_entry_index_props(c: Seq<(Seq<char>, EntryView)>, name: Seq<char>)
    ensures
        entry_index(c, name) matches Some(i) ==> 0 <= i < c.len() && c[i].0 == name && forall|
            j: int,
        | 0 <= j < i ==> c[j].0 != name,
        entry_index(c, name) is None ==> forall|j: int| 0 <= j < c.len() ==> c[j].0 != name,
    decreases c.len(),
{
    if c.len() > 0 {
        lemma_entry_index_props(c.drop_first(), name);
        assert forall|j: int| 1 <= j < c.len() implies c[j] == c.drop_first()[j - 1] by {}
    }
}

/// `HashMap::get` on the entries: the first entry named `name`.
pub open spec fn lookup(c: Seq<(Seq<char>, EntryView)>, name: Seq<char>) -> Option<EntryView> {
    match entry_index(c, name) {
        Some(i) => Some(c[i].1),
        None => None,
    }
}

/// Whether no two entries have the same name, as in the map they are read from.
pub open spec fn names_distinct(c: Seq<(Seq<char>, EntryView)>) -> bool {
    forall|i: int, j: int| 0 <= i < j < c.len() ==> c[i].0 != c[j].0
}

impl VersionCache {
    /// No two entries have the same name.
    #[verifier::type_invariant]
    spec fn names_are_distinct(self) -> bool {
        names_distinct(cache_view(self.entries@))
    }

    /// An empty cache.
    pub fn new() -> (c: VersionCache)
        ensures
            c@ == Seq::<(Seq<char>, EntryView)>::empty(),
    {
        let entries: Vec<(String, VersionEntry)> = Vec::new();
        assert(cache_view(entries@) =~= Seq::<(Seq<char>, EntryView)>::empty());
        let c = VersionCache { entries };
        c
    }

    /// `HashMap::insert`: the entry named `name` takes `entry`, or the entry is added at
    /// the end.
    pub fn insert(&mut self, name: String, entry: VersionEntry)
        ensures
            final(self)@ == spec_insert_entry(old(self)@, name@, entry@),
            names_distinct(final(self)@),
    {
        proof {
            use_type_invariant(&*self);
            lemma_entry_index_props(self@, name@);
        }
        let ghost before = self@;
        match find_entry(self, name.as_str()) {
            Some(i) => {
                proof {
                    lemma_insert_keeps_names_distinct(before, name@, entry@);
                }
                let mut v: Vec<(String, VersionEntry)> = Vec::new();
                std::mem::swap(&mut v, &mut self.entries);
                v.set(i, (name, entry));
                assert(cache_view(v@) =~= spec_insert_entry(before, name@, entry@));
                self.entries = v;
                assert(self@ =~= spec_insert_entry(before, name@, entry@));
            },
            None => {
                proof {
                    lemma_insert_keeps_names_distinct(before, name@, entry@);
                }
                let mut v: Vec<(String, VersionEntry)> = Vec::new();
                std::mem::swap(&mut v, &mut self.entries);
                v.push((name, entry));
                assert(cache_view(v@) =~= spec_insert_entry(before, name@, entry@));
                self.entries = v;
                assert(self@ =~= spec_insert_entry(before, name@, entry@));
            },
        }
    }

    /// The entries, in the order they were added.
    pub fn entries(&self) -> (r: &Vec<(String, VersionEntry)>)
        ensures
            cache_view(r@) == self@,
    {
        &self.entries
    }
}

/// `HashMap::insert` on the entries: the first entry named `name` takes `entry`, or the
/// entry is added at the end.
pub open spec fn spec_insert_entry(c: Seq<(Seq<char>, EntryView)>, name: Seq<char>, entry: EntryView) -> Seq<
    (Seq<char>, EntryView),
> {
    match entry_index(c, name) {
        Some(i) => c.update(i, (name, entry)),
        None => c.push((name, entry)),
    }
}

/// Inserting an entry keeps the names distinct.
proof fn lemma_insert_keeps_names_distinct(c: Seq<(Seq<char>, EntryView)>, name: Seq<char>, entry: EntryView)
    requires
        names_distinct(c),
    ensures
        names_distinct(spec_insert_entry(c, name, entry)),
{
    lemma_entry_index_props(c, name);
    let d = spec_insert_entry(c, name, entry);
    assert forall|i: int, j: int| 0 <= i < j < d.len() implies d[i].0 != d[j].0 by {
        if entry_index(c, name) is None && j == c.len() {
            assert(d[i] == c[i]);
        }
    }
}

/// The position of the entry named `name`, if any.
fn find_entry(cache: &VersionCache, name: &str) -> (r: Option<usize>)
    ensures
        match r {
            Some(i) => i < cache.entries@.len() && entry_index(cache@, name@) == Some(i as int),
            None => entry_index(cache@, name@) is None,
        },
{
    for i in 0..cache.entries.len()
        invariant
            forall|j: int| 0 <= j < i ==> cache@[j].0 != name@,
    {
        if str_eq(cache.entries[i].0.as_str(), name) {
            proof {
                lemma_entry_index(cache@, name@, i as int);
            }
            return Some(i);
        }
    }
    proof {
        lemma_entry_index(cache@, name@, cache@.len() as int);
    }
    None
}

/// Whether `latest` is a newer version than `current`: its UTF-8 bytes sort after those
/// of `current`, the order of `str`.
pub open spec fn spec_is_newer(latest: Seq<char>, current: Seq<char>) -> bool {
    bytes_lt(encode_utf8(current), encode_utf8(latest))
}

/// Whether `latest` is a newer version than `current`.
pub fn is_newer_version(latest: &str, current: &str) -> (r: bool)
    ensures
        r == spec_is_newer(latest@, current@),
{
    bytes_less(current.as_bytes(), latest.as_bytes())
}

/// The headers of a response as name and value pairs.
pub open spec fn header_pairs_view(h: Seq<(String, String)>) -> Seq<(Seq<char>, Seq<char>)> {
    h.map_values(|p: (String, String)| (p.0@, p.1@))
}

/// The value of the first header named `name`.
pub open spec fn header_value(h: Seq<(Seq<char>, Seq<char>)>, name: Seq<char>) -> Option<Seq<char>>
    decreases h.len(),
{
    if h.len() == 0 {
        None
    } else if h[0].0 == name {
        Some(h[0].1)
    } else {
        header_value(h.drop_first(), name)
    }
}

/// The value of the first header named `name`.
fn get_header(headers: &Vec<(String, String)>, name: &str) -> (r: Option<String>)
    ensures
        opt_view(r) == header_value(header_pairs_view(headers@), name@),
{
    let ghost hv = header_pairs_view(headers@);
    let mut i: usize = 0;
    assert(hv.skip(0) == hv);
    while i < headers.len()
        invariant
            i <= headers@.len(),
            hv == header_pairs_view(headers@),
            header_value(hv, name@) == header_value(hv.skip(i as int), name@),
        decreases headers.len() - i,
    {
        let ghost rest = hv.skip(i as int);
        assert(rest[0] == hv[i as int]);
        assert(rest.drop_first() == hv.skip(i + 1));
        if str_eq(headers[i].0.as_str(), name) {
            return Some(headers[i].1.clone());
        }
        i = i + 1;
    }
    None
}

/// The latest version that a response announces: the `x-muxi-sdk-latest` header, or
/// else `X-Muxi-SDK-Latest`.
pub open spec fn spec_announced_latest(h: Seq<(Seq<char>, Seq<char>)>) -> Option<Seq<char>> {
    match header_value(h, "x-muxi-sdk-latest"@) {
        Some(v) => Some(v),
        None => header_value(h, "X-Muxi-SDK-Latest"@),
    }
}

/// The newer version that a response announces, if it announces one newer than this
/// SDK's.
pub fn sdk_update_available(headers: &Vec<(String, String)>) -> (r: Option<String>)
    ensures
        match r {
            Some(v) => spec_announced_latest(header_pairs_view(headers@)) == Some(v@)
                && spec_is_newer(v@, VERSION@),
            None => match spec_announced_latest(header_pairs_view(headers@)) {
                Some(v) => !spec_is_newer(v, VERSION@),
                None => true,
            },
        },
{
    let latest = match get_header(headers, "x-muxi-sdk-latest") {
        Some(v) => Some(v),
        None => get_header(headers, "X-Muxi-SDK-Latest"),
    };
    match latest {
        Some(v) => {
            if is_newer_version(v.as_str(), VERSION) {
                Some(v)
            } else {
                None
            }
        },
        None => None,
    }
}


/// Entries with the same names at the same places are looked up at the same places.
pub proof fn lemma_entry_index_same_names(c: Seq<(Seq<char>, EntryView)>, d: Seq<(Seq<char>, EntryView)>, n: Seq<char>)
    requires
        c.len() == d.len(),
        forall|j: int| 0 <= j < c.len() ==> #[trigger] c[j].0 == d[j].0,
    ensures
        entry_index(c, n) == entry_index(d, n),
    decreases c.len(),
{
    if c.len() > 0 {
        assert forall|j: int| 0 <= j < c.drop_first().len() implies #[trigger] c.drop_first()[j].0
            == d.drop_first()[j].0 by {
            assert(c.drop_first()[j] == c[j + 1]);
            assert(d.drop_first()[j] == d[j + 1]);
        }
        lemma_entry_index_same_names(c.drop_first(), d.drop_first(), n);
        assert(c[0].0 == d[0].0);
    }
}

/// Where an entry added at the end is found.
pub proof fn lemma_entry_index_push(c: Seq<(Seq<char>, EntryView)>, x: (Seq<char>, EntryView), n: Seq<char>)
    ensures
        entry_index(c.push(x), n) == match entry_index(c, n) {
            Some(i) => Some(i),
            None => if x.0 == n {
                Some(c.len() as int)
            } else {
                None
            },
        },
{
    lemma_entry_index_props(c, n);
    let d = c.push(x);
    match entry_index(c, n) {
        Some(i) => {
            assert forall|j: int| 0 <= j < i implies d[j].0 != n by {
                assert(d[j] == c[j]);
            }
            assert(d[i] == c[i]);
            lemma_entry_index(d, n, i);
        },
        None => {
            assert forall|j: int| 0 <= j < c.len() implies d[j].0 != n by {
                assert(d[j] == c[j]);
            }
            assert(d[c.len() as int] == x);
            if x.0 == n {
                lemma_entry_index(d, n, c.len() as int);
            } else {
                assert forall|j: int| 0 <= j < d.len() implies d[j].0 != n by {
                    if j < c.len() {
                        assert(d[j] == c[j]);
                    }
                }
                lemma_entry_index(d, n, d.len() as int);
            }
        },
    }
}

/// A copy of an optional string.
fn copy_opt(s: &Option<String>) -> (r: Option<String>)
    ensures
        opt_view(r) == opt_view(*s),
{
    match s {
        Some(x) => Some(x.clone()),
        None => None,
    }
}

/// The second at which the user was last told, as recorded for this SDK: the recorded
/// text read as a `u64`, 0 when it is not one; `None` when nothing is recorded.
pub open spec fn spec_last_notified_secs(c: Seq<(Seq<char>, EntryView)>) -> Option<int> {
    match lookup(c, SDK_NAME@) {
        Some(e) => match e.last_notified {
            Some(t) => Some(
                match parse_unsigned(t, u64::MAX as int) {
                    Some(v) => v,
                    None => 0,
                },
            ),
            None => None,
        },
        None => None,
    }
}

/// Whether the user was told within the last twelve hours before `now`.
pub open spec fn spec_notified_recently(c: Seq<(Seq<char>, EntryView)>, now: int) -> bool {
    match spec_last_notified_secs(c) {
        Some(l) => now - l < TWELVE_HOURS_SECS,
        None => false,
    }
}

/// The recorded second of the last notice, as `spec_last_notified_secs` reads it.
pub fn last_notified_secs(cache: &VersionCache) -> (r: Option<u64>)
    ensures
        match r {
            Some(v) => spec_last_notified_secs(cache@) == Some(v as int),
            None => spec_last_notified_secs(cache@) is None,
        },
{
    match find_entry(cache, SDK_NAME) {
        Some(i) => match &cache.entries[i].1.last_notified {
            Some(t) => {
                let tv = chars_of(t.as_str());
                match parse_u64(tv.as_slice()) {
                    Some(v) => Some(v),
                    None => Some(0),
                }
            },
            None => None,
        },
        None => None,
    }
}

/// Whether the user was told within the last twelve hours before `now`. The recorded
/// second must not lie after `now` (the subtraction would overflow).
pub fn notified_recently(cache: &VersionCache, now: u64) -> (r: bool)
    requires
        spec_last_notified_secs(cache@) matches Some(l) ==> l <= now,
    ensures
        r == spec_notified_recently(cache@, now as int),
{
    match last_notified_secs(cache) {
        Some(last) => now - last < TWELVE_HOURS_SECS,
        None => false,
    }
}

/// The entries after recording that `latest` was announced: this SDK's entry records
/// the version in use and the announced one, keeping its last notice; a new entry is
/// added at the end when there is none.
pub open spec fn spec_update_latest(c: Seq<(Seq<char>, EntryView)>, latest: Seq<char>) -> Seq<
    (Seq<char>, EntryView),
> {
    match entry_index(c, SDK_NAME@) {
        Some(i) => c.update(
            i,
            (
                SDK_NAME@,
                EntryView {
                    current: Some(VERSION@),
                    latest: Some(latest),
                    last_notified: c[i].1.last_notified,
                },
            ),
        ),
        None => c.push(
            (SDK_NAME@, EntryView { current: Some(VERSION@), latest: Some(latest), last_notified: None }),
        ),
    }
}

/// Records that `latest` was announced.
pub fn update_latest_version(cache: &mut VersionCache, latest: &str)
    ensures
        final(cache)@ == spec_update_latest(old(cache)@, latest@),
        names_distinct(final(cache)@),
{
    proof {
        use_type_invariant(&*cache);
        lemma_names_stay_distinct(cache@, latest@, 0);
    }
    let ghost before = cache.entries@;
    match find_entry(cache, SDK_NAME) {
        Some(i) => {
            proof {
                lemma_entry_index_props(cache@, SDK_NAME@);
            }
            let e = VersionEntry {
                current: Some(String::from_str(VERSION)),
                latest: Some(String::from_str(latest)),
                last_notified: copy_opt(&cache.entries[i].1.last_notified),
            };
            let mut v: Vec<(String, VersionEntry)> = Vec::new();
            std::mem::swap(&mut v, &mut cache.entries);
            v.set(i, (String::from_str(SDK_NAME), e));
            assert(cache_view(v@) =~= spec_update_latest(cache_view(before), latest@));
            cache.entries = v;
            assert(cache@ =~= spec_update_latest(cache_view(before), latest@));
        },
        None => {
            let e = VersionEntry {
                current: Some(String::from_str(VERSION)),
                latest: Some(String::from_str(latest)),
                last_notified: None,
            };
            let mut v: Vec<(String, VersionEntry)> = Vec::new();
            std::mem::swap(&mut v, &mut cache.entries);
            v.push((String::from_str(SDK_NAME), e));
            assert(cache_view(v@) =~= spec_update_latest(cache_view(before), latest@));
            cache.entries = v;
            assert(cache@ =~= spec_update_latest(cache_view(before), latest@));
        },
    }
}

/// The entries after noting that the user was told at second `now`: this SDK's entry, if
/// there is one, records `now` in decimal; the entries are otherwise unchanged.
pub open spec fn spec_mark_notified(c: Seq<(Seq<char>, EntryView)>, now: nat) -> Seq<(Seq<char>, EntryView)> {
    match entry_index(c, SDK_NAME@) {
        Some(i) => c.update(
            i,
            (
                c[i].0,
                EntryView {
                    current: c[i].1.current,
                    latest: c[i].1.latest,
                    last_notified: Some(decimal(now)),
                },
            ),
        ),
        None => c,
    }
}

/// Notes that the user was told at second `now`.
pub fn mark_notified(cache: &mut VersionCache, now: u64)
    ensures
        final(cache)@ == spec_mark_notified(old(cache)@, now as nat),
        names_distinct(final(cache)@),
{
    proof {
        use_type_invariant(&*cache);
        lemma_names_stay_distinct(cache@, Seq::empty(), now as nat);
    }
    let ghost before = cache.entries@;
    match find_entry(cache, SDK_NAME) {
        Some(i) => {
            proof {
                lemma_entry_index_props(cache@, SDK_NAME@);
            }
            let name = cache.entries[i].0.clone();
            let e = VersionEntry {
                current: copy_opt(&cache.entries[i].1.current),
                latest: copy_opt(&cache.entries[i].1.latest),
                last_notified: Some(u64_to_string(now)),
            };
            let mut v: Vec<(String, VersionEntry)> = Vec::new();
            std::mem::swap(&mut v, &mut cache.entries);
            v.set(i, (name, e));
            assert(cache_view(v@) =~= spec_mark_notified(cache_view(before), now as nat));
            cache.entries = v;
            assert(cache@ =~= spec_mark_notified(cache_view(before), now as nat));
        },
        None => {},
    }
}


/// What checking a response for a newer SDK does at second `now`: nothing when the
/// response announces no version newer than this SDK's (`None`); otherwise the entries
/// record the announced version and, unless the user was told within the last twelve
/// hours, a notice at `now`. The outcome names the announced version and whether the
/// user is to be told.
pub open spec fn spec_check_update(
    c: Seq<(Seq<char>, EntryView)>,
    headers: Seq<(Seq<char>, Seq<char>)>,
    now: nat,
) -> (Seq<(Seq<char>, EntryView)>, Option<(Seq<char>, bool)>) {
    match spec_announced_latest(headers) {
        Some(v) => if spec_is_newer(v, VERSION@) {
            let updated = spec_update_latest(c, v);
            if spec_notified_recently(updated, now as int) {
                (updated, Some((v, false)))
            } else {
                (spec_mark_notified(updated, now), Some((v, true)))
            }
        } else {
            (c, None)
        },
        None => (c, None),
    }
}

/// Whether a response announces a version newer than this SDK's.
pub open spec fn announces_newer(headers: Seq<(Seq<char>, Seq<char>)>) -> bool {
    spec_announced_latest(headers) matches Some(v) && spec_is_newer(v, VERSION@)
}

/// Checks a response's headers for a newer SDK at second `now`, updating the cache as
/// `spec_check_update` says: `None` when no newer version is announced, otherwise the
/// announced version and whether the user is to be told now. When a newer version is
/// announced, the recorded last notice must not lie after `now` (the check of the
/// twelve hours would underflow).
pub fn check_update(cache: &mut VersionCache, headers: &Vec<(String, String)>, now: u64) -> (r:
    Option<(String, bool)>)
    requires
        announces_newer(header_pairs_view(headers@)) ==> (spec_last_notified_secs(old(cache)@) matches Some(l) ==> l <= now),
    ensures
        final(cache)@ == spec_check_update(old(cache)@, header_pairs_view(headers@), now as nat).0,
        match r {
            Some((v, tell)) => spec_check_update(old(cache)@, header_pairs_view(headers@), now as nat).1
                == Some((v@, tell)),
            None => spec_check_update(old(cache)@, header_pairs_view(headers@), now as nat).1 is None,
        },
{
    let ghost before = cache@;
    let latest = match sdk_update_available(headers) {
        Some(v) => v,
        None => return None,
    };
    update_latest_version(cache, latest.as_str());
    proof {
        lemma_update_latest_lookup(before, latest@, SDK_NAME@);
        assert(spec_last_notified_secs(cache@) == spec_last_notified_secs(before));
    }
    let recent = notified_recently(cache, now);
    if !recent {
        mark_notified(cache, now);
    }
    Some((latest, !recent))
}

/// Recording an announced version leaves this SDK's entry with the version in use, the
/// announced version and the previous last notice, and leaves every other entry as it was.
pub proof fn lemma_update_latest_lookup(c: Seq<(Seq<char>, EntryView)>, latest: Seq<char>, name: Seq<char>)
    ensures
        lookup(spec_update_latest(c, latest), SDK_NAME@) == Some(
            EntryView {
                current: Some(VERSION@),
                latest: Some(latest),
                last_notified: match lookup(c, SDK_NAME@) {
                    Some(e) => e.last_notified,
                    None => None,
                },
            },
        ),
        name != SDK_NAME@ ==> lookup(spec_update_latest(c, latest), name) == lookup(c, name),
{
    lemma_entry_index_props(c, SDK_NAME@);
    let d = spec_update_latest(c, latest);
    match entry_index(c, SDK_NAME@) {
        Some(i) => {
            assert forall|j: int| 0 <= j < c.len() implies #[trigger] c[j].0 == d[j].0 by {}
            lemma_entry_index_same_names(c, d, SDK_NAME@);
            lemma_entry_index_same_names(c, d, name);
            lemma_entry_index_props(c, name);
        },
        None => {
            let x = (SDK_NAME@, EntryView { current: Some(VERSION@), latest: Some(latest), last_notified: None });
            lemma_entry_index_push(c, x, SDK_NAME@);
            lemma_entry_index_push(c, x, name);
            lemma_entry_index_props(c, name);
        },
    }
}

/// Noting a notice at `now` records it in this SDK's entry, if there is one, and
/// changes nothing else; the recorded second then reads back as `now`.
pub proof fn lemma_mark_notified_lookup(c: Seq<(Seq<char>, EntryView)>, now: nat, name: Seq<char>)
    requires
        now <= u64::MAX,
    ensures
        lookup(spec_mark_notified(c, now), SDK_NAME@) == match lookup(c, SDK_NAME@) {
            Some(e) => Some(
                EntryView { current: e.current, latest: e.latest, last_notified: Some(decimal(now)) },
            ),
            None => None,
        },
        name != SDK_NAME@ ==> lookup(spec_mark_notified(c, now), name) == lookup(c, name),
        lookup(c, SDK_NAME@) is Some ==> spec_last_notified_secs(spec_mark_notified(c, now)) == Some(
            now as int,
        ),
{
    lemma_entry_index_props(c, SDK_NAME@);
    let d = spec_mark_notified(c, now);
    assert forall|j: int| 0 <= j < c.len() implies #[trigger] c[j].0 == d[j].0 by {}
    lemma_entry_index_same_names(c, d, SDK_NAME@);
    lemma_entry_index_same_names(c, d, name);
    lemma_entry_index_props(c, name);
    lemma_parse_decimal(now, u64::MAX as int);
}

/// After the user is told at `now`, a check at any second up to twelve hours later finds
/// that the user was told recently (so the notice is not repeated).
pub proof fn lemma_notified_recently_after_mark(c: Seq<(Seq<char>, EntryView)>, now: nat, later: int)
    requires
        lookup(c, SDK_NAME@) is Some,
        now <= u64::MAX,
        now <= later < now + TWELVE_HOURS_SECS,
    ensures
        spec_notified_recently(spec_mark_notified(c, now), later),
{
    lemma_mark_notified_lookup(c, now, SDK_NAME@);
}

/// Recording versions and notices keeps the names of the entries distinct.
pub proof fn lemma_names_stay_distinct(c: Seq<(Seq<char>, EntryView)>, latest: Seq<char>, now: nat)
    requires
        names_distinct(c),
    ensures
        names_distinct(spec_update_latest(c, latest)),
        names_distinct(spec_mark_notified(c, now)),
{
    lemma_entry_index_props(c, SDK_NAME@);
    let d = spec_update_latest(c, latest);
    assert forall|i: int, j: int| 0 <= i < j < d.len() implies d[i].0 != d[j].0 by {
        if entry_index(c, SDK_NAME@) is None && j == c.len() {
            assert(d[i] == c[i]);
        }
    }
    let m = spec_mark_notified(c, now);
    assert forall|i: int, j: int| 0 <= i < j < m.len() implies m[i].0 != m[j].0 by {
        assert(m[i].0 == c[i].0);
        assert(m[j].0 == c[j].0);
    }
}

} // verus!

//! The boss and skill catalogue: its checks, its cache freshness and the
//! choice between cached, fetched and bundled data.

use vstd::prelude::*;
use crate::ordered::{increasing, keys};
use crate::text::{
    any_control, blank, fits_bytes, has_control, is_blank, less, lemma_str_less_transitive,
    str_less,
};

verus! {

/// A cache entry is fresh for a day.
pub const CACHE_AGE: u64 = 86400;

/// The largest catalogue page or cache file that is read.
pub const MAX_DATA_SIZE: u64 = 4194304;

/// Bosses by category, and the skills. A valid catalogue (see `validation`)
/// has its categories in increasing order, each named once.
pub struct Catalog {
    pub bosses: Vec<(String, Vec<String>)>,
    pub skills: Vec<String>,
}

/// A catalogue with the time (in seconds since the Unix epoch) it was fetched.
pub struct Cache {
    pub fetched_at: u64,
    pub catalog: Catalog,
}

/// Why a catalogue was refused or could not be built.
#[derive(Debug, PartialEq, Eq)]
pub enum CatalogError {
    IncompleteSkillList,
    IncompleteBossCategories,
    IncompleteBossList,
    EmptyBossCategory,
    InvalidEntry,
    InvalidSelector,
    InvalidLink,
    SkillListMissing,
    BossTableMissing,
    BossesMissing,
    InvalidWikiResponse,
    WikiDataMissing,
    InvalidUtf8,
    UnorderedCategories,
    Fetch(String),
    Bundled(String),
}

pub type Strings = Seq<Seq<char>>;

pub type Categories = Seq<(Seq<char>, Strings)>;

pub open spec fn strings(v: Seq<String>) -> Strings {
    v.map_values(|s: String| s@)
}

pub open spec fn categories(v: Seq<(String, Vec<String>)>) -> Categories {
    v.map_values(|e: (String, Vec<String>)| (e.0@, strings(e.1@)))
}

impl View for Catalog {
    type V = (Categories, Strings);

    open spec fn view(&self) -> (Categories, Strings) {
        (categories(self.bosses@), strings(self.skills@))
    }
}

/// The number of bosses over all categories.
pub open spec fn boss_total(b: Categories) -> nat
    decreases b.len(),
{
    if b.len() == 0 {
        0
    } else {
        boss_total(b.drop_last()) + b.last().1.len()
    }
}

/// A catalogue entry: not blank, at most 200 bytes of UTF-8, and free of
/// control characters.
pub open spec fn valid_name(n: Seq<char>) -> bool {
    &&& !is_blank(n)
    &&& vstd::utf8::encode_utf8(n).len() <= 200
    &&& !has_control(n)
}

pub open spec fn all_valid(names: Strings) -> bool {
    forall|i: int| 0 <= i < names.len() ==> #[trigger] valid_name(names[i])
}

/// Every skill, category and boss name is a valid entry.
pub open spec fn entries_valid(c: (Categories, Strings)) -> bool {
    &&& all_valid(c.1)
    &&& forall|i: int| 0 <= i < c.0.len() ==> #[trigger] valid_name(c.0[i].0)
    &&& forall|i: int| 0 <= i < c.0.len() ==> #[trigger] all_valid(c.0[i].1)
}

/// What checking a catalogue gives, the first failed check deciding.
pub open spec fn validation(c: (Categories, Strings)) -> Result<(), CatalogError> {
    if c.1.len() < 23 {
        Err(CatalogError::IncompleteSkillList)
    } else if c.0.len() < 5 {
        Err(CatalogError::IncompleteBossCategories)
    } else if boss_total(c.0) < 40 {
        Err(CatalogError::IncompleteBossList)
    } else if exists|i: int| 0 <= i < c.0.len() && #[trigger] c.0[i].1.len() == 0 {
        Err(CatalogError::EmptyBossCategory)
    } else if !entries_valid(c) {
        Err(CatalogError::InvalidEntry)
    } else if !increasing(keys(c.0)) {
        Err(CatalogError::UnorderedCategories)
    } else {
        Ok(())
    }
}

/// A fetch time is fresh at `now` when it is not in the future and less than
/// a day old.
pub open spec fn fresh(fetched_at: u64, now: u64) -> bool {
    fetched_at <= now && now - fetched_at < CACHE_AGE
}

proof fn lemma_boss_total_prefix(b: Categories, i: int)
    requires
        0 <= i < b.len(),
    ensures
        boss_total(b.take(i + 1)) == boss_total(b.take(i)) + b[i].1.len(),
{
    assert(b.take(i + 1).drop_last() =~= b.take(i));
}

/// Whether a catalogue entry is valid.
pub fn valid_entry(name: &String) -> (r: bool)
    ensures
        r == valid_name(name@),
{
    !blank(name.as_str()) && fits_bytes(name.as_str(), 200) && !any_control(name.as_str())
}

fn all_entries_valid(names: &Vec<String>) -> (r: bool)
    ensures
        r == all_valid(strings(names@)),
{
    let mut i: usize = 0;
    while i < names.len()
        invariant
            i <= names.len(),
            forall|j: int| 0 <= j < i ==> #[trigger] valid_name(names@[j]@),
        decreases names.len() - i,
    {
        if !valid_entry(&names[i]) {
            assert(!valid_name(strings(names@)[i as int]));
            return false;
        }
        i = i + 1;
    }
    assert forall|j: int| 0 <= j < strings(names@).len() implies #[trigger] valid_name(
        strings(names@)[j],
    ) by {
        assert(valid_name(names@[j]@));
    }
    true
}

/// Whether the category names are in increasing order, each once.
fn categories_ordered(bosses: &Vec<(String, Vec<String>)>) -> (r: bool)
    ensures
        r == increasing(keys(categories(bosses@))),
{
    let ghost k = keys(categories(bosses@));
    if bosses.len() == 0 {
        return true;
    }
    let mut i: usize = 1;
    while i < bosses.len()
        invariant
            1 <= i <= bosses.len(),
            k == keys(categories(bosses@)),
            k.len() == bosses.len(),
            forall|a: int, b: int| 0 <= a < b < i ==> str_less(#[trigger] k[a], #[trigger] k[b]),
        decreases bosses.len() - i,
    {
        assert(k[i - 1] == bosses@[i - 1].0@ && k[i as int] == bosses@[i as int].0@);
        if !less(bosses[i - 1].0.as_str(), bosses[i].0.as_str()) {
            return false;
        }
        assert forall|a: int, b: int| 0 <= a < b < i + 1 implies str_less(
            #[trigger] k[a],
            #[trigger] k[b],
        ) by {
            if b == i && a < i - 1 {
                lemma_str_less_transitive(k[a], k[i - 1], k[b]);
            }
        }
        i = i + 1;
    }
    true
}

impl Catalog {
    /// Checks that the catalogue is complete, that its entries are sound and
    /// that its categories are in increasing order, each once.
    pub fn validate(&self) -> (r: Result<(), CatalogError>)
        ensures
            r == validation(self@),
    {
        let ghost b = self@.0;
        if self.skills.len() < 23 {
            return Err(CatalogError::IncompleteSkillList);
        }
        if self.bosses.len() < 5 {
            return Err(CatalogError::IncompleteBossCategories);
        }
        // The total, counted up to the required 40.
        let mut total: usize = 0;
        let mut i: usize = 0;
        while i < self.bosses.len()
            invariant
                i <= self.bosses.len(),
                b == self@.0,
                total <= 40,
                total as nat == (if boss_total(b.take(i as int)) >= 40 {
                    40
                } else {
                    boss_total(b.take(i as int))
                }),
            decreases self.bosses.len() - i,
        {
            proof {
                lemma_boss_total_prefix(b, i as int);
            }
            let n = self.bosses[i].1.len();
            if n >= 40 - total {
                total = 40;
            } else {
                total = total + n;
            }
            i = i + 1;
        }
        assert(b.take(i as int) =~= b);
        if total < 40 {
            return Err(CatalogError::IncompleteBossList);
        }
        let mut k: usize = 0;
        while k < self.bosses.len()
            invariant
                k <= self.bosses.len(),
                b == self@.0,
                self@.1.len() >= 23,
                b.len() >= 5,
                boss_total(b) >= 40,
                forall|j: int| 0 <= j < k ==> #[trigger] b[j].1.len() != 0,
            decreases self.bosses.len() - k,
        {
            if self.bosses[k].1.len() == 0 {
                assert(b[k as int].1.len() == 0);
                return Err(CatalogError::EmptyBossCategory);
            }
            k = k + 1;
        }
        if !all_entries_valid(&self.skills) {
            return Err(CatalogError::InvalidEntry);
        }
        let mut k: usize = 0;
        while k < self.bosses.len()
            invariant
                k <= self.bosses.len(),
                b == self@.0,
                self@.1.len() >= 23,
                b.len() >= 5,
                boss_total(b) >= 40,
                forall|j: int| 0 <= j < b.len() ==> #[trigger] b[j].1.len() != 0,
                all_valid(self@.1),
                forall|j: int| 0 <= j < k ==> #[trigger] valid_name(b[j].0),
            decreases self.bosses.len() - k,
        {
            if !valid_entry(&self.bosses[k].0) {
                assert(!valid_name(b[k as int].0));
                return Err(CatalogError::InvalidEntry);
            }
            k = k + 1;
        }
        let mut k: usize = 0;
        while k < self.bosses.len()
            invariant
                k <= self.bosses.len(),
                b == self@.0,
                self@.1.len() >= 23,
                b.len() >= 5,
                boss_total(b) >= 40,
                forall|j: int| 0 <= j < b.len() ==> #[trigger] b[j].1.len() != 0,
                all_valid(self@.1),
                forall|j: int| 0 <= j < b.len() ==> #[trigger] valid_name(b[j].0),
                forall|j: int| 0 <= j < k ==> #[trigger] all_valid(b[j].1),
            decreases self.bosses.len() - k,
        {
            if !all_entries_valid(&self.bosses[k].1) {
                assert(!all_valid(b[k as int].1));
                return Err(CatalogError::InvalidEntry);
            }
            k = k + 1;
        }
        if !categories_ordered(&self.bosses) {
            return Err(CatalogError::UnorderedCategories);
        }
        Ok(())
    }
}

/// Whether a catalogue fetched at `fetched_at` is still fresh at `now`; a
/// fetch time in the future (after a clock change) is never fresh.
pub fn is_fresh(fetched_at: u64, now: u64) -> (r: bool)
    ensures
        r == fresh(fetched_at, now),
{
    match now.checked_sub(fetched_at) {
        Some(age) => age < CACHE_AGE,
        None => false,
    }
}

/// Where a loaded catalogue came from.
#[derive(Debug, PartialEq, Eq)]
pub enum Source {
    Cache,
    Fetched,
    Bundled,
}

/// A loaded catalogue, with why a refresh failed if one did and the cache or
/// bundled data was used instead.
pub struct Loaded {
    pub catalog: Catalog,
    pub source: Source,
    pub refresh_error: Option<CatalogError>,
}

/// The cache, when it holds a valid catalogue.
pub open spec fn usable(cached: Option<Cache>) -> Option<Cache> {
    match cached {
        Some(c) => if validation(c.catalog@) is Ok {
            Some(c)
        } else {
            None
        },
        None => None,
    }
}

/// Whether the cache is used without fetching: it is usable, and either
/// offline or, unless a refresh is asked for, fresh.
pub open spec fn cache_suffices(cached: Option<Cache>, now: u64, refresh: bool, offline: bool) -> bool {
    match usable(cached) {
        Some(c) => offline || (!refresh && fresh(c.fetched_at, now)),
        None => false,
    }
}

/// What is used when nothing was fetched: the usable cache, else the bundled
/// catalogue if it is valid.
pub open spec fn fallback(
    cached: Option<Cache>,
    bundled: Result<Catalog, CatalogError>,
    refresh_error: Option<CatalogError>,
) -> Result<Loaded, CatalogError> {
    match usable(cached) {
        Some(c) => Ok(Loaded { catalog: c.catalog, source: Source::Cache, refresh_error }),
        None => match bundled {
            Err(e) => Err(e),
            Ok(b) => match validation(b@) {
                Ok(()) => Ok(Loaded { catalog: b, source: Source::Bundled, refresh_error }),
                Err(e) => Err(e),
            },
        },
    }
}

/// What a fetch gave once checked: its catalogue when that passes
/// `validate`, else the fetch's or the check's error.
pub open spec fn checked_fetch(fetched: Result<Catalog, CatalogError>) -> Result<Catalog, CatalogError> {
    match fetched {
        Ok(c) => match validation(c@) {
            Ok(()) => Ok(c),
            Err(e) => Err(e),
        },
        Err(e) => Err(e),
    }
}

/// What loading gives once a fetch returned `fetched`: the fetched catalogue
/// when it is valid, or on failure the error when refreshing, else the
/// fallback.
pub open spec fn after_fetch(
    fetched: Result<Catalog, CatalogError>,
    cached: Option<Cache>,
    refresh: bool,
    bundled: Result<Catalog, CatalogError>,
) -> Result<Loaded, CatalogError> {
    match checked_fetch(fetched) {
        Ok(c) => Ok(Loaded { catalog: c, source: Source::Fetched, refresh_error: None }),
        Err(e) => if refresh {
            Err(e)
        } else {
            fallback(cached, bundled, Some(e))
        },
    }
}

/// Chooses the catalogue: a usable cache that is fresh, or any usable cache
/// when offline, is used as it is; otherwise, unless offline, `fetch` is
/// called and its catalogue used when it passes `validate`; a failed fetch
/// fails a refresh and otherwise falls back to the usable cache, then to the
/// bundled catalogue. Whatever is returned passes `validate`.
pub fn load<F>(
    cached: Option<Cache>,
    now: u64,
    refresh: bool,
    offline: bool,
    fetch: F,
    bundled: Result<Catalog, CatalogError>,
) -> (r: Result<Loaded, CatalogError>) where F: FnOnce() -> Result<Catalog, CatalogError>
    requires
        call_requires(fetch, ()),
    ensures
        cache_suffices(cached, now, refresh, offline) ==> r == Ok::<Loaded, CatalogError>(
            Loaded { catalog: usable(cached)->0.catalog, source: Source::Cache, refresh_error: None },
        ),
        !cache_suffices(cached, now, refresh, offline) && offline ==> r == fallback(
            cached,
            bundled,
            None,
        ),
        !cache_suffices(cached, now, refresh, offline) && !offline ==> exists|
            fetched: Result<Catalog, CatalogError>,
        |
            #[trigger] call_ensures(fetch, (), fetched) && r == after_fetch(
                fetched,
                cached,
                refresh,
                bundled,
            ),
        r matches Ok(l) ==> validation(l.catalog@) is Ok,
        // A refresh that is not offline always fetches, and a valid fetched
        // catalogue is what it returns, whatever the cache holds.
        refresh && !offline ==> exists|fetched: Result<Catalog, CatalogError>|
            #[trigger] call_ensures(fetch, (), fetched) && (fetched matches Ok(c) ==> (validation(
                c@,
            ) is Ok ==> r == Ok::<Loaded, CatalogError>(
                Loaded { catalog: c, source: Source::Fetched, refresh_error: None },
            ))),
{
    let usable_cache: Option<Cache> = match cached {
        Some(c) => if c.catalog.validate().is_ok() {
            Some(c)
        } else {
            None
        },
        None => None,
    };
    let use_cache = match &usable_cache {
        Some(c) => offline || (!refresh && is_fresh(c.fetched_at, now)),
        None => false,
    };
    if use_cache {
        match usable_cache {
            Some(c) => {
                return Ok(Loaded { catalog: c.catalog, source: Source::Cache, refresh_error: None });
            },
            None => {},
        }
    }
    let mut refresh_error: Option<CatalogError> = None;
    if !offline {
        let fetched = fetch();
        let checked = match fetched {
            Ok(catalog) => match catalog.validate() {
                Ok(()) => Ok(catalog),
                Err(e) => Err(e),
            },
            Err(e) => Err(e),
        };
        match checked {
            Ok(catalog) => {
                return Ok(Loaded { catalog, source: Source::Fetched, refresh_error: None });
            },
            Err(e) => {
                if refresh {
                    return Err(e);
                }
                refresh_error = Some(e);
            },
        }
    }
    match usable_cache {
        Some(c) => Ok(Loaded { catalog: c.catalog, source: Source::Cache, refresh_error }),
        None => match bundled {
            Err(e) => Err(e),
            Ok(b) => match b.validate() {
                Ok(()) => Ok(Loaded { catalog: b, source: Source::Bundled, refresh_error }),
                Err(e) => Err(e),
            },
        },
    }
}

/// A catalogue of the given bosses and skills, when it passes `validate`.
pub fn checked_catalog(bosses: Vec<(String, Vec<String>)>, skills: Vec<String>) -> (r: Result<
    Catalog,
    CatalogError,
>)
    ensures
        match r {
            Ok(c) => c.bosses == bosses && c.skills == skills && validation(c@) is Ok,
            Err(e) => validation((categories(bosses@), strings(skills@))) == Err::<(), CatalogError>(e),
        },
        r is Ok <==> validation((categories(bosses@), strings(skills@))) is Ok,
{
    let catalog = Catalog { bosses, skills };
    match catalog.validate() {
        Ok(()) => Ok(catalog),
        Err(e) => Err(e),
    }
}

/// Whether a cache file or response of `len` bytes is within `limit`.
pub fn within_limit(len: u64, limit: u64) -> (r: bool)
    ensures
        r == (len <= limit),
{
    len <= limit
}

/// Every catalogue that loading settles on passes `validate`, whichever
/// source it comes from: a cache is used only when it is valid, and a fetched
/// or bundled catalogue likewise.
pub proof fn law_loaded_catalogue_is_valid(
    cached: Option<Cache>,
    now: u64,
    refresh: bool,
    offline: bool,
    fetched: Result<Catalog, CatalogError>,
    bundled: Result<Catalog, CatalogError>,
    refresh_error: Option<CatalogError>,
)
    ensures
        cache_suffices(cached, now, refresh, offline) ==> validation(usable(cached)->0.catalog@)
            is Ok,
        fallback(cached, bundled, refresh_error) matches Ok(l) ==> validation(l.catalog@) is Ok,
        after_fetch(fetched, cached, refresh, bundled) matches Ok(l) ==> validation(l.catalog@)
            is Ok,
{
}

/// When the sources are unavailable (the fetch fails) and no refresh was
/// asked for, the usable cache is used, else the bundled catalogue when it is
/// valid, and the failure is reported beside it; a refresh fails instead.
pub proof fn law_unavailable_sources_fall_back(
    cached: Option<Cache>,
    refresh: bool,
    bundled: Result<Catalog, CatalogError>,
    e: CatalogError,
)
    ensures
        refresh ==> after_fetch(Err(e), cached, refresh, bundled) == Err::<Loaded, CatalogError>(
            e,
        ),
        !refresh && usable(cached) is Some ==> after_fetch(Err(e), cached, refresh, bundled)
            == Ok::<Loaded, CatalogError>(
            Loaded {
                catalog: usable(cached)->0.catalog,
                source: Source::Cache,
                refresh_error: Some(e),
            },
        ),
        !refresh && usable(cached) is None ==> (bundled matches Ok(b) ==> (validation(b@) is Ok
            ==> after_fetch(Err(e), cached, refresh, bundled) == Ok::<Loaded, CatalogError>(
            Loaded { catalog: b, source: Source::Bundled, refresh_error: Some(e) },
        ))),
{
}

/// A cache is never fresh once a day has passed, nor when it was written in
/// the future (after the clock went back).
pub proof fn law_freshness_window(fetched_at: u64, now: u64)
    ensures
        fresh(fetched_at, now) <==> fetched_at <= now < fetched_at + CACHE_AGE,
        fresh(fetched_at, now) <==> fetched_at <= now < fetched_at + 24 * 60 * 60,
{
}

/// A refresh that is not offline never settles for the cache, however fresh
/// it is: the cache never suffices, and a valid fetched catalogue is used as
/// the result, with no error beside it.
pub proof fn law_refresh_always_fetches(
    cached: Option<Cache>,
    now: u64,
    c: Catalog,
    bundled: Result<Catalog, CatalogError>,
)
    requires
        validation(c@) is Ok,
    ensures
        !cache_suffices(cached, now, true, false),
        after_fetch(Ok(c), cached, true, bundled) == Ok::<Loaded, CatalogError>(
            Loaded { catalog: c, source: Source::Fetched, refresh_error: None },
        ),
{
}

/// Offline, a usable cache is always used as it is, however old it is.
pub proof fn law_offline_uses_any_usable_cache(cached: Option<Cache>, now: u64, refresh: bool)
    requires
        usable(cached) is Some,
    ensures
        cache_suffices(cached, now, refresh, true),
{
}

/// A catalogue needs at least 23 skills, at least 5 boss categories and at
/// least 40 bosses in all, with no empty category, and every name must be
/// non-blank, at most 200 bytes of UTF-8 and free of control characters;
/// the first of these that fails is reported.
pub proof fn law_catalogue_minimums(c: (Categories, Strings))
    ensures
        c.1.len() < 23 ==> validation(c) == Err::<(), CatalogError>(
            CatalogError::IncompleteSkillList,
        ),
        c.1.len() >= 23 && c.0.len() < 5 ==> validation(c) == Err::<(), CatalogError>(
            CatalogError::IncompleteBossCategories,
        ),
        c.1.len() >= 23 && c.0.len() >= 5 && boss_total(c.0) < 40 ==> validation(c) == Err::<
            (),
            CatalogError,
        >(CatalogError::IncompleteBossList),
        validation(c) is Ok ==> c.1.len() >= 23 && c.0.len() >= 5 && boss_total(c.0) >= 40
            && (forall|i: int| 0 <= i < c.0.len() ==> #[trigger] c.0[i].1.len() > 0) && (forall|
            i: int,
        |
            0 <= i < c.1.len() ==> !is_blank(#[trigger] c.1[i]) && vstd::utf8::encode_utf8(
                c.1[i],
            ).len() <= 200 && !has_control(c.1[i])),
{
    if validation(c) is Ok {
        assert forall|i: int| 0 <= i < c.1.len() implies !is_blank(#[trigger] c.1[i])
            && vstd::utf8::encode_utf8(c.1[i]).len() <= 200 && !has_control(c.1[i]) by {
            assert(valid_name(c.1[i]));
        }
    }
}

} // verus!

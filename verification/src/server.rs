//! The decisions of the HTTP backend: which task list a query asks for, the
//! task-list cache with its generation counter, and how a created task's
//! location splits into folder and name.

use vstd::prelude::*;
use vstd::string::*;
use crate::tasks::ROOT_FOLDER;
use crate::text::{chars_of, owned, same_text};

verus! {

/// How long a cached list is served, in nanoseconds (30 seconds).
pub const CACHE_TTL_NANOS: u64 = 30_000_000_000;

/// Whether a list query asks for the tasks of all folders (`scope=all`)
/// rather than those of the root folder.
pub fn scope_is_all(scope: Option<&str>) -> (r: bool)
    ensures
        r == (scope matches Some(s) && s@ == "all"@),
{
    match scope {
        Some(s) => same_text(s, "all"),
        None => false,
    }
}

// ---------------------------------------------------------------------------
// The task-list cache
// ---------------------------------------------------------------------------

/// A cached list and the time it was fetched at.
pub struct CachedList<T> {
    pub fetched_at: u64,
    pub tasks: T,
}

/// One cached list per scope (root folder, all folders) and a generation
/// that every write operation advances. A list fetched while a write
/// happened is not stored, so that it cannot hide the write's effect.
pub struct ListCache<T> {
    root: Option<CachedList<T>>,
    all: Option<CachedList<T>>,
    generation: u64,
}

/// The contents of a `ListCache`: for each scope the fetch time and list.
pub struct ListCacheView<T> {
    pub root: Option<(u64, T)>,
    pub all: Option<(u64, T)>,
    pub generation: u64,
}

/// Time from `from` to `to`, zero when `to` is earlier.
pub open spec fn elapsed(from: u64, to: u64) -> int {
    if to >= from {
        to - from
    } else {
        0
    }
}

/// The generation after one more write; it wraps around at `u64::MAX`.
pub open spec fn next_generation(g: u64) -> u64 {
    if g == u64::MAX {
        0
    } else {
        (g + 1) as u64
    }
}

impl<T> ListCacheView<T> {
    /// The entry of one scope.
    pub open spec fn slot(self, all: bool) -> Option<(u64, T)> {
        if all {
            self.all
        } else {
            self.root
        }
    }

    /// The list served for a scope at time `now`: the cached one while it is
    /// younger than the TTL.
    pub open spec fn lookup(self, all: bool, now: u64) -> Option<T> {
        match self.slot(all) {
            Some((at, tasks)) => if elapsed(at, now) < CACHE_TTL_NANOS {
                Some(tasks)
            } else {
                None
            },
            None => None,
        }
    }

    /// After a write operation: both lists dropped, generation advanced.
    pub open spec fn invalidated(self) -> Self {
        ListCacheView { root: None, all: None, generation: next_generation(self.generation) }
    }

    /// After storing a list fetched at `now` that was requested when the
    /// generation was `seen`: stored only if no write happened since.
    pub open spec fn stored(self, all: bool, seen: u64, now: u64, tasks: T) -> Self {
        if seen != self.generation {
            self
        } else if all {
            ListCacheView { all: Some((now, tasks)), ..self }
        } else {
            ListCacheView { root: Some((now, tasks)), ..self }
        }
    }
}

spec fn cached_view<T>(c: Option<CachedList<T>>) -> Option<(u64, T)> {
    match c {
        Some(e) => Some((e.fetched_at, e.tasks)),
        None => None,
    }
}

impl<T> View for ListCache<T> {
    type V = ListCacheView<T>;

    closed spec fn view(&self) -> ListCacheView<T> {
        ListCacheView {
            root: cached_view(self.root),
            all: cached_view(self.all),
            generation: self.generation,
        }
    }
}

impl<T> ListCache<T> {
    /// An empty cache at generation 0.
    pub fn new() -> (r: Self)
        ensures
            r@ == (ListCacheView::<T> { root: None, all: None, generation: 0 }),
    {
        ListCache { root: None, all: None, generation: 0 }
    }

    /// The current generation, to be read before a list is fetched.
    pub fn generation(&self) -> (r: u64)
        ensures
            r == self@.generation,
    {
        self.generation
    }

    /// The cached list of a scope if it is still fresh at `now`.
    pub fn lookup(&self, all: bool, now: u64) -> (r: Option<&T>)
        ensures
            match (r, self@.lookup(all, now)) {
                (Some(x), Some(y)) => *x == y,
                (None, None) => true,
                _ => false,
            },
    {
        let slot = if all {
            &self.all
        } else {
            &self.root
        };
        match slot {
            Some(e) => {
                let age: u64 = if now >= e.fetched_at {
                    now - e.fetched_at
                } else {
                    0
                };
                if age < CACHE_TTL_NANOS {
                    Some(&e.tasks)
                } else {
                    None
                }
            },
            None => None,
        }
    }

    /// After any write operation (create, delete, enable/disable, run/stop)
    /// the cache is dropped, so that the next refresh shows the new state.
    pub fn invalidate(&mut self)
        ensures
            final(self)@ == old(self)@.invalidated(),
    {
        self.root = None;
        self.all = None;
        self.generation = if self.generation == u64::MAX {
            0
        } else {
            self.generation + 1
        };
    }

    /// Stores a freshly fetched list, unless a write happened after the
    /// generation `seen` was read.
    pub fn store(&mut self, all: bool, seen: u64, now: u64, tasks: T)
        ensures
            final(self)@ == old(self)@.stored(all, seen, now, tasks),
    {
        if seen == self.generation {
            let entry = CachedList { fetched_at: now, tasks };
            if all {
                self.all = Some(entry);
            } else {
                self.root = Some(entry);
            }
        }
    }
}

/// After a write operation no cached list is served, for either scope, at
/// any time.
pub proof fn lemma_invalidated_cache_misses<T>(c: ListCacheView<T>, all: bool, now: u64)
    ensures
        c.invalidated().lookup(all, now) is None,
{
}

/// A list stored with the current generation is served for its scope until
/// the TTL has passed.
pub proof fn lemma_stored_list_is_served<T>(
    c: ListCacheView<T>,
    all: bool,
    now: u64,
    later: u64,
    tasks: T,
)
    requires
        now <= later,
        later - now < CACHE_TTL_NANOS,
    ensures
        c.stored(all, c.generation, now, tasks).lookup(all, later) == Some(tasks),
{
}

/// A cached list is served only while it is younger than 30 seconds: once
/// that much time has passed since its fetch, neither scope serves it.
pub proof fn lemma_expired_list_is_not_served<T>(c: ListCacheView<T>, all: bool, now: u64)
    requires
        (if all {
            c.all
        } else {
            c.root
        }) matches Some((at, _)) && now >= at && now - at >= 30_000_000_000,
    ensures
        c.lookup(all, now) is None,
{
}

/// A list whose fetch began before a write operation is never stored: the
/// cache stays as the write left it.
pub proof fn lemma_stale_list_is_dropped<T>(c: ListCacheView<T>, all: bool, now: u64, tasks: T)
    ensures
        c.invalidated().stored(all, c.generation, now, tasks) == c.invalidated(),
{
}

/// Storing the list of one scope leaves what the other scope serves as it was.
pub proof fn lemma_other_scope_unchanged<T>(
    c: ListCacheView<T>,
    all: bool,
    seen: u64,
    now: u64,
    tasks: T,
    at: u64,
)
    ensures
        c.stored(all, seen, now, tasks).lookup(!all, at) == c.lookup(!all, at),
{
}

// ---------------------------------------------------------------------------
// The location of a created task
// ---------------------------------------------------------------------------

/// The index of the last `\` in `s`.
pub open spec fn last_backslash(s: Seq<char>) -> Option<int>
    decreases s.len(),
{
    if s.len() == 0 {
        None
    } else if s.last() == '\\' {
        Some(s.len() - 1)
    } else {
        last_backslash(s.drop_last())
    }
}

/// Folder and name of a location such as `\Folder\TaskName`: split after the
/// last `\` when something follows it, else the root folder and the whole.
pub open spec fn located_parts(s: Seq<char>) -> (Seq<char>, Seq<char>) {
    match last_backslash(s) {
        Some(i) => if i + 1 < s.len() {
            (s.take(i + 1), s.skip(i + 1))
        } else {
            (ROOT_FOLDER@, s)
        },
        None => (ROOT_FOLDER@, s),
    }
}

proof fn lemma_last_backslash(s: Seq<char>)
    ensures
        match last_backslash(s) {
            Some(i) => 0 <= i < s.len() && s[i] == '\\' && forall|j: int|
                i < j < s.len() ==> s[j] != '\\',
            None => forall|j: int| 0 <= j < s.len() ==> s[j] != '\\',
        },
    decreases s.len(),
{
    if s.len() > 0 && s.last() != '\\' {
        let t = s.drop_last();
        lemma_last_backslash(t);
        assert(forall|j: int| 0 <= j < t.len() ==> t[j] == s[j]);
        match last_backslash(t) {
            Some(i) => {
                assert forall|j: int| i < j < s.len() implies s[j] != '\\' by {
                    if j < t.len() {
                        assert(t[j] == s[j]);
                    }
                }
            },
            None => {
                assert forall|j: int| 0 <= j < s.len() implies s[j] != '\\' by {
                    if j < t.len() {
                        assert(t[j] == s[j]);
                    }
                }
            },
        }
    }
}

/// Splits a created task's location into folder and name.
pub fn split_located(located: &str) -> (r: (String, String))
    ensures
        (r.0@, r.1@) == located_parts(located@),
{
    let cs = chars_of(located);
    let n = cs.len();
    let mut i = n;
    assert(located@.take(n as int) =~= located@);
    while i > 0 && cs[i - 1] != '\\'
        invariant
            i <= n,
            n == located@.len(),
            cs@ == located@,
            last_backslash(located@) == last_backslash(located@.take(i as int)),
        decreases i,
    {
        assert(located@.take(i as int).drop_last() =~= located@.take(i - 1));
        i -= 1;
    }
    if i > 0 && i < n {
        assert(located@.take(i as int).last() == '\\');
        assert(last_backslash(located@) == Some(i - 1));
        (owned(located.substring_char(0, i)), owned(located.substring_char(i, n)))
    } else {
        if i == 0 {
            assert(located@.take(0) =~= Seq::<char>::empty());
        } else {
            assert(located@.take(n as int) =~= located@);
        }
        (owned(ROOT_FOLDER), owned(located))
    }
}

/// When a location is split at a `\`, the folder keeps the `\`, the name
/// holds none, and the two together give back the location.
pub proof fn lemma_split_located_rejoins(s: Seq<char>)
    requires
        s.contains('\\'),
        s.last() != '\\',
    ensures
        located_parts(s).0 + located_parts(s).1 == s,
        located_parts(s).0.last() == '\\',
        !located_parts(s).1.contains('\\'),
{
    lemma_last_backslash(s);
    let k = choose|k: int| 0 <= k < s.len() && s[k] == '\\';
    assert(last_backslash(s) is Some);
    let i = last_backslash(s)->Some_0;
    assert(i != s.len() - 1);
    assert(s.take(i + 1) + s.skip(i + 1) =~= s);
    let name = s.skip(i + 1);
    assert forall|j: int| 0 <= j < name.len() implies name[j] != '\\' by {
        assert(name[j] == s[i + 1 + j]);
    }
}

/// A location with no `\`, or one that ends in `\`, is reported in the
/// root folder `\`, under the whole location as its name.
pub proof fn lemma_split_located_fallback(s: Seq<char>)
    requires
        !s.contains('\\') || (s.len() > 0 && s.last() == '\\'),
    ensures
        located_parts(s) == ("\\"@, s),
{
    reveal_strlit("\\");
    lemma_last_backslash(s);
    if !s.contains('\\') {
        if last_backslash(s) is Some {
            let i = last_backslash(s)->Some_0;
            assert(s[i] == '\\');
        }
    }
}

} // verus!

use vstd::prelude::*;

use indexmap::IndexMap;

use crate::common::{extended_common, texts, CommonView, StringOrVecString};
use crate::errors::TaskError;
use crate::mom_files::{added_tasks, MomFile, MomFileView};
use crate::paths::relative_to_base;
use crate::paths::get_path_relative_to_base;
use crate::text::{concat, text_eq};

verus! {

#[verifier::external_type_specification]
#[verifier::external_body]
#[verifier::reject_recursive_types(K)]
#[verifier::reject_recursive_types(V)]
#[verifier::reject_recursive_types(S)]
pub struct ExIndexMap<K, V, S>(indexmap::IndexMap<K, V, S>);

/// The files held by a cache, by path.
pub uninterp spec fn cached_files(m: IndexMap<String, MomFile>) -> Map<Seq<char>, MomFile>;

/// Relies on `IndexMap::new`: the map starts empty.
#[verifier::external_body]
fn cache_new() -> (r: IndexMap<String, MomFile>)
    ensures
        cached_files(r).dom() == Set::<Seq<char>>::empty(),
{
    IndexMap::new()
}

/// Relies on `IndexMap::get`: the value stored under `key`, if any.
#[verifier::external_body]
fn cache_get<'a>(m: &'a IndexMap<String, MomFile>, key: &str) -> (r: Option<&'a MomFile>)
    ensures
        r is None <==> !cached_files(*m).contains_key(key@),
        r matches Some(f) ==> *f == cached_files(*m)[key@],
{
    m.get(key)
}

/// Relies on `IndexMap::insert`: `key` then holds `value`.
#[verifier::external_body]
fn cache_insert(m: &mut IndexMap<String, MomFile>, key: String, value: MomFile)
    ensures
        cached_files(*final(m)) == cached_files(*old(m)).insert(key@, value),
{
    m.insert(key, value);
}

/// Message for a configuration file on a cycle of bases.
pub open spec fn file_cycle_text(path: Seq<char>) -> Seq<char> {
    "Found a cyclic dependency for mom file: "@ + path
}

/// What reading a configuration file gives, as plain values.
pub enum ReadView {
    Ready(MomFileView),
    Needs(Seq<char>),
    Cycle(Seq<char>),
}

/// File `f` after inheriting from file `b`: common fields merged with
/// `f`'s values winning, and `b`'s tasks added where `f` has no task of
/// that name.
pub open spec fn file_extended(f: MomFileView, b: MomFileView) -> MomFileView {
    MomFileView {
        common: extended_common(f.common, b.common),
        tasks: f.tasks + added_tasks(f.tasks, b.tasks),
        ..f
    }
}

/// File `f` with its list of bases consumed.
pub open spec fn consumed(f: MomFileView) -> MomFileView {
    MomFileView { common: CommonView { extend: Seq::empty(), ..f.common }, ..f }
}

/// Reading the file at `path` from `cache` while the files of `loading`
/// have their bases read: a cycle if `path` is among them; a request for
/// the file if it is not cached; the file itself if it has no bases; else
/// the file, its bases consumed, merged in order with each base read in
/// turn. `fuel` bounds the depth and is never short when it is the number
/// of cached files not being read.
pub open spec fn read_view(cache: Map<Seq<char>, MomFile>, loading: Set<Seq<char>>, path: Seq<char>, fuel: int) -> ReadView
    decreases fuel, 0int,
{
    if loading.contains(path) {
        ReadView::Cycle(path)
    } else if !cache.contains_key(path) {
        ReadView::Needs(path)
    } else if cache[path]@.common.extend.len() == 0 {
        ReadView::Ready(cache[path]@)
    } else if fuel <= 0 {
        ReadView::Needs(path)
    } else {
        read_bases_view(cache, loading.insert(path), consumed(cache[path]@), cache[path]@.common.extend, fuel - 1)
    }
}

/// Merging into `acc`, in order, each of `bases` read against `acc`'s directory.
pub open spec fn read_bases_view(
    cache: Map<Seq<char>, MomFile>,
    loading: Set<Seq<char>>,
    acc: MomFileView,
    bases: Seq<Seq<char>>,
    fuel: int,
) -> ReadView
    decreases fuel, 1int + bases.len(),
{
    if bases.len() == 0 {
        ReadView::Ready(acc)
    } else {
        match read_bases_view(cache, loading, acc, bases.drop_last(), fuel) {
            ReadView::Ready(a) => match read_view(cache, loading, relative_to_base(acc.directory, bases.last()), fuel) {
                ReadView::Ready(b) => ReadView::Ready(file_extended(a, b)),
                other => other,
            },
            other => other,
        }
    }
}

proof fn lemma_read_bases_stops(
    cache: Map<Seq<char>, MomFile>,
    loading: Set<Seq<char>>,
    acc: MomFileView,
    bases: Seq<Seq<char>>,
    j: int,
    fuel: int,
)
    requires
        1 <= j <= bases.len(),
        !(read_bases_view(cache, loading, acc, bases.subrange(0, j), fuel) is Ready),
    ensures
        read_bases_view(cache, loading, acc, bases, fuel) == read_bases_view(cache, loading, acc, bases.subrange(0, j), fuel),
    decreases bases.len() - j,
{
    if j < bases.len() {
        assert(bases.subrange(0, j + 1).drop_last() =~= bases.subrange(0, j));
        assert(read_bases_view(cache, loading, acc, bases.subrange(0, j + 1), fuel) == read_bases_view(
            cache,
            loading,
            acc,
            bases.subrange(0, j),
            fuel,
        ));
        lemma_read_bases_stops(cache, loading, acc, bases, j + 1, fuel);
    } else {
        assert(bases.subrange(0, j) =~= bases);
    }
}

/// The result `r` is the one `v` describes.
pub open spec fn outcome_matches(r: Result<ReadOutcome, TaskError>, v: ReadView) -> bool {
    match v {
        ReadView::Ready(f) => r matches Ok(ReadOutcome::Ready(g)) && g@ == f && g.wf(),
        ReadView::Needs(p) => r matches Ok(ReadOutcome::NeedsFile(q)) && q@ == p,
        ReadView::Cycle(p) => r matches Err(TaskError::ConfigError(m)) && m@ == file_cycle_text(p),
    }
}

/// What reading a configuration file gives.
pub enum ReadOutcome {
    /// The file, merged with its bases.
    Ready(MomFile),
    /// The file at this path must be loaded into the cache first.
    NeedsFile(String),
}

/// Loaded configuration files, by path, and the paths whose bases are
/// being read.
pub struct MomFilesContainer {
    pub cached: IndexMap<String, MomFile>,
    pub loading: Vec<String>,
}

impl MomFilesContainer {
    /// Every cached file is well formed; the paths being read are cached
    /// and distinct.
    pub open spec fn wf(&self) -> bool {
        &&& cached_files(self.cached).dom().finite()
        &&& forall|p: Seq<char>| #[trigger] cached_files(self.cached).contains_key(p) ==> cached_files(self.cached)[p].wf()
        &&& self.loading_set().subset_of(cached_files(self.cached).dom())
        &&& texts(self.loading@).no_duplicates()
    }

    /// Paths being read, as a set.
    pub open spec fn loading_set(&self) -> Set<Seq<char>> {
        texts(self.loading@).to_set()
    }

    /// How many cached files are not being read.
    pub open spec fn fuel(&self) -> int {
        cached_files(self.cached).dom().len() - self.loading@.len()
    }

    /// An empty container.
    pub fn new() -> (r: MomFilesContainer)
        ensures
            r.wf(),
            cached_files(r.cached).dom() == Set::<Seq<char>>::empty(),
            r.loading@.len() == 0,
    {
        MomFilesContainer { cached: cache_new(), loading: Vec::new() }
    }

    /// Stores the loaded file `file` under `path`.
    pub fn insert(&mut self, path: String, file: MomFile)
        requires
            old(self).wf(),
            file.wf(),
        ensures
            final(self).wf(),
            cached_files(final(self).cached) == cached_files(old(self).cached).insert(path@, file),
            final(self).loading == old(self).loading,
    {
        let ghost k = path@;
        cache_insert(&mut self.cached, path, file);
    }

    /// Whether `path` is being read.
    fn is_loading(&self, path: &str) -> (r: bool)
        ensures
            r == self.loading_set().contains(path@),
    {
        let mut i: usize = 0;
        while i < self.loading.len()
            invariant
                i <= self.loading@.len(),
                forall|j: int| 0 <= j < i ==> self.loading@[j]@ != path@,
            decreases self.loading@.len() - i,
        {
            if text_eq(self.loading[i].as_str(), path) {
                assert(texts(self.loading@)[i as int] == path@);
                return true;
            }
            i = i + 1;
        }
        proof {
            if texts(self.loading@).to_set().contains(path@) {
                let j = choose|j: int| 0 <= j < texts(self.loading@).len() && texts(self.loading@)[j] == path@;
                assert(self.loading@[j]@ == path@);
            }
        }
        false
    }

    /// Reads the configuration file at `path`, merged with its bases, each
    /// read in turn and resolved against the file's directory; see
    /// `read_view`. Fails when a file is reached again while its bases are
    /// being read.
    pub fn read_mom_file(&mut self, path: &str) -> (r: Result<ReadOutcome, TaskError>)
        requires
            old(self).wf(),
        ensures
            final(self).wf(),
            final(self).cached == old(self).cached,
            final(self).loading@ == old(self).loading@,
            outcome_matches(r, read_view(cached_files(old(self).cached), old(self).loading_set(), path@, old(self).fuel())),
        decreases old(self).fuel(), 0int,
    {
        proof {
            self.lemma_fuel_nonneg();
        }
        if self.is_loading(path) {
            let m = concat("Found a cyclic dependency for mom file: ", path);
            return Err(TaskError::ConfigError(m));
        }
        let mut acc = match cache_get(&self.cached, path) {
            None => {
                return Ok(ReadOutcome::NeedsFile(String::from_str(path)));
            },
            Some(f) => f.duplicate(),
        };
        if acc.common.extend.is_empty() {
            return Ok(ReadOutcome::Ready(acc));
        }
        proof {
            self.lemma_fuel_pos(path@);
        }
        let bases = acc.common.extend.iter();
        acc.common.extend = StringOrVecString::empty();
        let ghost old_loading = self.loading@;
        self.loading.push(String::from_str(path));
        proof {
            assert(texts(self.loading@) =~= texts(old_loading).push(path@));
            let a = texts(self.loading@);
            let b = texts(old_loading);
            assert forall|x: Seq<char>| a.to_set().contains(x) <==> b.to_set().insert(path@).contains(x) by {
                if a.to_set().contains(x) {
                    let k = choose|k: int| 0 <= k < a.len() && a[k] == x;
                    if k < b.len() {
                        assert(b[k] == x);
                    }
                }
                if b.to_set().contains(x) {
                    let k = choose|k: int| 0 <= k < b.len() && b[k] == x;
                    assert(a[k] == x);
                }
                if x == path@ {
                    assert(a[b.len() as int] == x);
                }
            }
            assert(a.to_set() =~= b.to_set().insert(path@));
            assert(a.no_duplicates()) by {
                assert forall|i: int, k: int| 0 <= i < k < a.len() implies a[i] != a[k] by {
                    if k == b.len() {
                        assert(b.to_set().contains(b[i]));
                    } else {
                        assert(a[i] == b[i] && a[k] == b[k]);
                    }
                }
            }
        }
        let r = self.read_bases(acc, &bases);
        self.loading.pop();
        proof {
            assert(self.loading@ =~= old_loading);
        }
        r
    }

    /// Merges into `acc`, in order, each of `bases` read against `acc`'s
    /// directory; see `read_bases_view`.
    fn read_bases(&mut self, first: MomFile, bases: &Vec<String>) -> (r: Result<ReadOutcome, TaskError>)
        requires
            old(self).wf(),
            first.wf(),
        ensures
            final(self).wf(),
            final(self).cached == old(self).cached,
            final(self).loading@ == old(self).loading@,
            outcome_matches(r, read_bases_view(cached_files(old(self).cached), old(self).loading_set(), first@, texts(bases@), old(self).fuel())),
        decreases old(self).fuel(), 1int,
    {
        let ghost start = first@;
        let ghost c = cached_files(self.cached);
        let ghost l = self.loading_set();
        let ghost fuel = self.fuel();
        let ghost ls = self.loading@;
        proof {
            self.lemma_fuel_nonneg();
        }
        let mut acc = first;
        let mut j: usize = 0;
        while j < bases.len()
            invariant
                self.wf(),
                self.cached == old(self).cached,
                fuel == old(self).fuel(),
                fuel >= 0,
                cached_files(self.cached) == c,
                self.loading@ == ls,
                ls == old(self).loading@,
                start == first@,
                c == cached_files(old(self).cached),
                l == old(self).loading_set(),
                self.loading_set() == l,
                self.fuel() == fuel,
                acc.wf(),
                acc@.directory == start.directory,
                j <= bases@.len(),
                read_bases_view(c, l, start, texts(bases@).subrange(0, j as int), fuel) == ReadView::Ready(acc@),
            decreases bases@.len() - j,
        {
            let full = get_path_relative_to_base(acc.directory.as_str(), bases[j].as_str());
            let ghost pre = texts(bases@).subrange(0, j as int);
            let ghost post = texts(bases@).subrange(0, j + 1);
            proof {
                assert(post.drop_last() =~= pre);
                assert(post.last() == bases@[j as int]@);
            }
            let r = self.read_mom_file(full.as_str());
            match r {
                Ok(ReadOutcome::Ready(b)) => {
                    acc.extend(&b);
                },
                Ok(ReadOutcome::NeedsFile(p)) => {
                    proof {
                        lemma_read_bases_stops(c, l, start, texts(bases@), j as int + 1, fuel);
                    }
                    return Ok(ReadOutcome::NeedsFile(p));
                },
                Err(e) => {
                    proof {
                        lemma_read_bases_stops(c, l, start, texts(bases@), j as int + 1, fuel);
                    }
                    return Err(e);
                },
            }
            j = j + 1;
        }
        proof {
            assert(texts(bases@).subrange(0, bases@.len() as int) =~= texts(bases@));
        }
        Ok(ReadOutcome::Ready(acc))
    }

    proof fn lemma_fuel_nonneg(&self)
        requires
            self.wf(),
        ensures
            self.fuel() >= 0,
            self.loading_set().len() == self.loading@.len(),
    {
        texts(self.loading@).unique_seq_to_set();
        vstd::set_lib::lemma_len_subset(self.loading_set(), cached_files(self.cached).dom());
    }

    proof fn lemma_fuel_pos(&self, p: Seq<char>)
        requires
            self.wf(),
            !self.loading_set().contains(p),
            cached_files(self.cached).contains_key(p),
        ensures
            self.fuel() >= 1,
    {
        texts(self.loading@).unique_seq_to_set();
        vstd::set_lib::lemma_len_subset(self.loading_set().insert(p), cached_files(self.cached).dom());
    }
}

} // verus!

//! The two keyed collections of the viewer's state: the set of paths whose
//! diffs are hidden, and the store of rendered diffs with the requests still
//! being worked on.
//!
//! Both keep their entries in a list in the order they were added; a later
//! entry for the same key stands over an earlier one.

use vstd::prelude::*;
use crate::diff::{DiffContent, DiffRequest, DiffRequestView};
use crate::git::{FileStat, FileStatView, stat_views};
use crate::style::SpanView;

verus! {

// ---------------------------------------------------------------------------
// Sets of paths
// ---------------------------------------------------------------------------

/// The set of paths a list holds.
pub open spec fn path_set(s: Seq<String>) -> Set<Seq<char>>
    decreases s.len(),
{
    if s.len() == 0 {
        Set::empty()
    } else {
        path_set(s.drop_last()).insert(s.last()@)
    }
}

proof fn lemma_path_set_contains(s: Seq<String>, p: Seq<char>)
    ensures
        path_set(s).contains(p) <==> exists|i: int| 0 <= i < s.len() && s[i]@ == p,
    decreases s.len(),
{
    if s.len() > 0 {
        let t = s.drop_last();
        lemma_path_set_contains(t, p);
        if path_set(t).contains(p) {
            let i = choose|i: int| 0 <= i < t.len() && t[i]@ == p;
            assert(s[i]@ == p);
        }
        if exists|i: int| 0 <= i < s.len() && s[i]@ == p {
            let i = choose|i: int| 0 <= i < s.len() && s[i]@ == p;
            if i < t.len() {
                assert(t[i]@ == p);
            }
        }
    }
}

/// The paths of a list of changed files.
pub open spec fn file_paths(files: Seq<FileStatView>) -> Set<Seq<char>> {
    Set::new(|p: Seq<char>| exists|i: int| 0 <= i < files.len() && files[i].path == p)
}

/// Whether one of `files` has path `path`.
pub fn has_file(files: &[FileStat], path: &String) -> (b: bool)
    ensures
        b == file_paths(stat_views(files@)).contains(path@),
{
    let ghost v = stat_views(files@);
    let mut i: usize = 0;
    while i < files.len()
        invariant
            i <= files.len(),
            v == stat_views(files@),
            forall|k: int| 0 <= k < i ==> v[k].path != path@,
        decreases files.len() - i,
    {
        if files[i].path == *path {
            assert(v[i as int].path == path@);
            return true;
        }
        i += 1;
    }
    false
}

/// A set of paths, as a `HashSet<String>` would hold them.
pub struct PathSet {
    paths: Vec<String>,
}

impl View for PathSet {
    type V = Set<Seq<char>>;

    closed spec fn view(&self) -> Set<Seq<char>> {
        path_set(self.paths@)
    }
}

impl PathSet {
    /// No paths.
    pub fn new() -> (s: PathSet)
        ensures
            s@ == Set::<Seq<char>>::empty(),
    {
        PathSet { paths: Vec::new() }
    }

    /// Whether `path` is in the set.
    pub fn contains(&self, path: &String) -> (b: bool)
        ensures
            b == self@.contains(path@),
    {
        proof {
            lemma_path_set_contains(self.paths@, path@);
        }
        let mut i: usize = 0;
        while i < self.paths.len()
            invariant
                i <= self.paths.len(),
                forall|k: int| 0 <= k < i ==> self.paths@[k]@ != path@,
            decreases self.paths.len() - i,
        {
            if self.paths[i] == *path {
                proof {
                    lemma_path_set_contains(self.paths@, path@);
                }
                assert(self.paths@[i as int]@ == path@);
                return true;
            }
            i += 1;
        }
        false
    }

    /// Adds `path`.
    pub fn insert(&mut self, path: String)
        ensures
            final(self)@ == old(self)@.insert(path@),
    {
        let ghost before = self.paths@;
        self.paths.push(path);
        assert(self.paths@.drop_last() =~= before);
    }

    /// Takes `path` out.
    pub fn remove(&mut self, path: &String)
        ensures
            final(self)@ == old(self)@.remove(path@),
    {
        let ghost s = self.paths@;
        let mut kept: Vec<String> = Vec::new();
        let mut i: usize = 0;
        assert(s.take(0) =~= Seq::<String>::empty());
        assert(path_set(Seq::<String>::empty()).remove(path@) =~= Set::<Seq<char>>::empty());
        while i < self.paths.len()
            invariant
                s == self.paths@,
                i <= self.paths.len(),
                path_set(kept@) == path_set(s.take(i as int)).remove(path@),
            decreases self.paths.len() - i,
        {
            assert(s.take(i + 1).drop_last() =~= s.take(i as int));
            let ghost before = kept@;
            if self.paths[i] != *path {
                kept.push(self.paths[i].clone());
                assert(kept@.drop_last() =~= before);
                assert(path_set(kept@) =~= path_set(s.take(i + 1)).remove(path@));
            } else {
                assert(path_set(kept@) =~= path_set(s.take(i + 1)).remove(path@));
            }
            i += 1;
        }
        assert(s.take(s.len() as int) =~= s);
        self.paths = kept;
    }

    /// Keeps only the paths that one of `files` has.
    pub fn retain_files(&mut self, files: &[FileStat])
        ensures
            final(self)@ == old(self)@.intersect(file_paths(stat_views(files@))),
    {
        let ghost s = self.paths@;
        let ghost keep = file_paths(stat_views(files@));
        let mut kept: Vec<String> = Vec::new();
        let mut i: usize = 0;
        assert(s.take(0) =~= Seq::<String>::empty());
        assert(path_set(Seq::<String>::empty()).intersect(keep) =~= Set::<Seq<char>>::empty());
        while i < self.paths.len()
            invariant
                s == self.paths@,
                keep == file_paths(stat_views(files@)),
                i <= self.paths.len(),
                path_set(kept@) == path_set(s.take(i as int)).intersect(keep),
            decreases self.paths.len() - i,
        {
            assert(s.take(i + 1).drop_last() =~= s.take(i as int));
            let ghost before = kept@;
            if has_file(files, &self.paths[i]) {
                kept.push(self.paths[i].clone());
                assert(kept@.drop_last() =~= before);
                assert(path_set(kept@) =~= path_set(s.take(i + 1)).intersect(keep));
            } else {
                assert(path_set(kept@) =~= path_set(s.take(i + 1)).intersect(keep));
            }
            i += 1;
        }
        assert(s.take(s.len() as int) =~= s);
        self.paths = kept;
    }
}

// ---------------------------------------------------------------------------
// Rendered diffs
// ---------------------------------------------------------------------------

/// The diffs a list of entries holds: a later entry for a request stands over
/// an earlier one.
pub open spec fn cache_map(s: Seq<(DiffRequest, DiffContent)>) -> Map<DiffRequestView, Seq<Seq<SpanView>>>
    decreases s.len(),
{
    if s.len() == 0 {
        Map::empty()
    } else {
        cache_map(s.drop_last()).insert(s.last().0@, s.last().1@)
    }
}

/// The requests a list holds.
pub open spec fn request_set(s: Seq<DiffRequest>) -> Set<DiffRequestView>
    decreases s.len(),
{
    if s.len() == 0 {
        Set::empty()
    } else {
        request_set(s.drop_last()).insert(s.last()@)
    }
}

proof fn lemma_request_set_contains(s: Seq<DiffRequest>, r: DiffRequestView)
    ensures
        request_set(s).contains(r) <==> exists|i: int| 0 <= i < s.len() && s[i]@ == r,
    decreases s.len(),
{
    if s.len() > 0 {
        let t = s.drop_last();
        lemma_request_set_contains(t, r);
        if request_set(t).contains(r) {
            let i = choose|i: int| 0 <= i < t.len() && t[i]@ == r;
            assert(s[i]@ == r);
        }
        if exists|i: int| 0 <= i < s.len() && s[i]@ == r {
            let i = choose|i: int| 0 <= i < s.len() && s[i]@ == r;
            if i < t.len() {
                assert(t[i]@ == r);
            }
        }
    }
}

/// Where no entry after `i` is for the request of entry `i`, the map gives
/// that entry's diff.
proof fn lemma_cache_map_last(s: Seq<(DiffRequest, DiffContent)>, i: int)
    requires
        0 <= i < s.len(),
        forall|k: int| i < k < s.len() ==> s[k].0@ != s[i].0@,
    ensures
        cache_map(s).contains_key(s[i].0@),
        cache_map(s)[s[i].0@] == s[i].1@,
    decreases s.len(),
{
    if i < s.len() - 1 {
        let t = s.drop_last();
        assert forall|k: int| i < k < t.len() implies t[k].0@ != t[i].0@ by {
            assert(t[k] == s[k]);
        }
        lemma_cache_map_last(t, i);
    }
}

/// Where no entry is for `r`, the map has no diff for it.
proof fn lemma_cache_map_absent(s: Seq<(DiffRequest, DiffContent)>, r: DiffRequestView)
    requires
        forall|k: int| 0 <= k < s.len() ==> s[k].0@ != r,
    ensures
        !cache_map(s).contains_key(r),
    decreases s.len(),
{
    if s.len() > 0 {
        let t = s.drop_last();
        assert forall|k: int| 0 <= k < t.len() implies t[k].0@ != r by {
            assert(t[k] == s[k]);
        }
        lemma_cache_map_absent(t, r);
    }
}

/// The rendered diffs, by request, and the requests still being worked on,
/// as a `HashMap` and a `HashSet` of requests would hold them.
pub struct DiffStore {
    cache: Vec<(DiffRequest, DiffContent)>,
    loading: Vec<DiffRequest>,
}

impl DiffStore {
    /// The rendered diffs, by request.
    pub closed spec fn cached(&self) -> Map<DiffRequestView, Seq<Seq<SpanView>>> {
        cache_map(self.cache@)
    }

    /// The requests still being worked on.
    pub closed spec fn pending(&self) -> Set<DiffRequestView> {
        request_set(self.loading@)
    }

    /// No diffs, nothing being worked on.
    pub fn new() -> (d: DiffStore)
        ensures
            d.cached() == Map::<DiffRequestView, Seq<Seq<SpanView>>>::empty(),
            d.pending() == Set::<DiffRequestView>::empty(),
    {
        DiffStore { cache: Vec::new(), loading: Vec::new() }
    }

    /// Forgets every diff and every request being worked on.
    pub fn clear(&mut self)
        ensures
            final(self).cached() == Map::<DiffRequestView, Seq<Seq<SpanView>>>::empty(),
            final(self).pending() == Set::<DiffRequestView>::empty(),
    {
        self.cache = Vec::new();
        self.loading = Vec::new();
    }

    /// Whether no diff is stored.
    pub fn is_empty(&self) -> (b: bool)
        ensures
            b == (self.cached() == Map::<DiffRequestView, Seq<Seq<SpanView>>>::empty()),
    {
        if self.cache.len() == 0 {
            assert(self.cached() =~= Map::<DiffRequestView, Seq<Seq<SpanView>>>::empty());
            true
        } else {
            let ghost s = self.cache@;
            assert(cache_map(s).contains_key(s.last().0@));
            false
        }
    }

    /// Whether no request is being worked on.
    pub fn is_idle(&self) -> (b: bool)
        ensures
            b == (self.pending() == Set::<DiffRequestView>::empty()),
    {
        if self.loading.len() == 0 {
            assert(self.pending() =~= Set::<DiffRequestView>::empty());
            true
        } else {
            let ghost s = self.loading@;
            assert(request_set(s).contains(s.last()@));
            false
        }
    }

    /// The stored diff for `request`, if there is one.
    pub fn get(&self, request: &DiffRequest) -> (r: Option<&DiffContent>)
        ensures
            match r {
                Some(c) => self.cached().contains_key(request@) && c@ == self.cached()[request@],
                None => !self.cached().contains_key(request@),
            },
    {
        let ghost s = self.cache@;
        let mut i: usize = self.cache.len();
        while i > 0
            invariant
                i <= self.cache.len(),
                s == self.cache@,
                forall|k: int| i <= k < s.len() ==> s[k].0@ != request@,
            decreases i,
        {
            i -= 1;
            if self.cache[i].0.same_as(request) {
                proof {
                    lemma_cache_map_last(s, i as int);
                }
                return Some(&self.cache[i].1);
            }
        }
        proof {
            lemma_cache_map_absent(s, request@);
        }
        None
    }

    /// Whether a diff for `request` is stored.
    pub fn contains(&self, request: &DiffRequest) -> (b: bool)
        ensures
            b == self.cached().contains_key(request@),
    {
        self.get(request).is_some()
    }

    /// Stores the diff for `request`, over any it had.
    pub fn insert(&mut self, request: DiffRequest, content: DiffContent)
        ensures
            final(self).cached() == old(self).cached().insert(request@, content@),
            final(self).pending() == old(self).pending(),
    {
        let ghost before = self.cache@;
        self.cache.push((request, content));
        assert(self.cache@.drop_last() =~= before);
    }

    /// Whether `request` is being worked on.
    pub fn is_loading(&self, request: &DiffRequest) -> (b: bool)
        ensures
            b == self.pending().contains(request@),
    {
        proof {
            lemma_request_set_contains(self.loading@, request@);
        }
        let mut i: usize = 0;
        while i < self.loading.len()
            invariant
                i <= self.loading.len(),
                forall|k: int| 0 <= k < i ==> self.loading@[k]@ != request@,
            decreases self.loading.len() - i,
        {
            if self.loading[i].same_as(request) {
                proof {
                    lemma_request_set_contains(self.loading@, request@);
                }
                assert(self.loading@[i as int]@ == request@);
                return true;
            }
            i += 1;
        }
        false
    }

    /// Notes that `request` is being worked on.
    pub fn start_loading(&mut self, request: DiffRequest)
        ensures
            final(self).pending() == old(self).pending().insert(request@),
            final(self).cached() == old(self).cached(),
    {
        let ghost before = self.loading@;
        self.loading.push(request);
        assert(self.loading@.drop_last() =~= before);
    }

    /// Notes that `request` is no longer being worked on.
    pub fn finish_loading(&mut self, request: &DiffRequest)
        ensures
            final(self).pending() == old(self).pending().remove(request@),
            final(self).cached() == old(self).cached(),
    {
        let ghost s = self.loading@;
        let mut kept: Vec<DiffRequest> = Vec::new();
        let mut i: usize = 0;
        assert(s.take(0) =~= Seq::<DiffRequest>::empty());
        assert(request_set(Seq::<DiffRequest>::empty()).remove(request@) =~= Set::<DiffRequestView>::empty());
        while i < self.loading.len()
            invariant
                s == self.loading@,
                i <= self.loading.len(),
                request_set(kept@) == request_set(s.take(i as int)).remove(request@),
            decreases self.loading.len() - i,
        {
            assert(s.take(i + 1).drop_last() =~= s.take(i as int));
            let ghost before = kept@;
            if !self.loading[i].same_as(request) {
                kept.push(self.loading[i].duplicate());
                assert(kept@.drop_last() =~= before);
                assert(request_set(kept@) =~= request_set(s.take(i + 1)).remove(request@));
            } else {
                assert(request_set(kept@) =~= request_set(s.take(i + 1)).remove(request@));
            }
            i += 1;
        }
        assert(s.take(s.len() as int) =~= s);
        self.loading = kept;
    }
}

} // verus!

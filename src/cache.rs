//! Cache entries and the cache manager.
//!
//! The manager does not read the directory itself: each operation takes the
//! file names of the working directory as the caller listed them, in listing
//! order.
use vstd::prelude::*;
use vstd::string::*;
use crate::naming::{
    app_part, descriptor_part, is_cache_file_name, is_cache_name, join, join_path, split_cache_name,
    version_part,
};

verus! {

/// An entry as a value: package name, version, descriptor and full path.
pub type EntryModel = (Seq<char>, Seq<char>, Seq<char>, Seq<char>);

/// The entry for the cache file `name` in the directory `dir`.
pub open spec fn entry_model(dir: Seq<char>, name: Seq<char>) -> EntryModel {
    (app_part(name), version_part(name), descriptor_part(name), join_path(dir, name))
}

pub open spec fn names_of(v: Seq<String>) -> Seq<Seq<char>> {
    v.map_values(|s: String| s@)
}

/// The entries that a listing of `dir` yields: its cache file names, in order.
pub open spec fn scan_model(dir: Seq<char>, names: Seq<Seq<char>>) -> Seq<EntryModel>
    decreases names.len(),
{
    if names.len() == 0 {
        Seq::empty()
    } else {
        let prev = scan_model(dir, names.drop_last());
        if is_cache_name(names.last()) {
            prev.push(entry_model(dir, names.last()))
        } else {
            prev
        }
    }
}

/// The entries of `es` whose package name starts with `q`, in order.
pub open spec fn keep_prefixed(es: Seq<EntryModel>, q: Seq<char>) -> Seq<EntryModel>
    decreases es.len(),
{
    if es.len() == 0 {
        Seq::empty()
    } else {
        let prev = keep_prefixed(es.drop_last(), q);
        if q.is_prefix_of(es.last().0) {
            prev.push(es.last())
        } else {
            prev
        }
    }
}

/// `s` with one trailing `*` removed, if it ends with one.
pub open spec fn trim_star(s: Seq<char>) -> Seq<char> {
    if s.len() > 0 && s.last() == '*' {
        s.drop_last()
    } else {
        s
    }
}

/// The entries that `pattern` selects: all of them for `*`, else those whose
/// package name starts with the pattern less one trailing `*`.
pub open spec fn query_model(dir: Seq<char>, names: Seq<Seq<char>>, pattern: Seq<char>) -> Seq<
    EntryModel,
> {
    if pattern == seq!['*'] {
        scan_model(dir, names)
    } else {
        keep_prefixed(scan_model(dir, names), trim_star(pattern))
    }
}

pub open spec fn paths_of(es: Seq<EntryModel>) -> Seq<Seq<char>> {
    es.map_values(|e: EntryModel| e.3)
}

/// One cached file, parsed from its name.
#[derive(Debug)]
pub struct CacheEntry {
    app_name: String,
    version: String,
    file_name: String,
    path: String,
}

impl View for CacheEntry {
    type V = EntryModel;

    closed spec fn view(&self) -> EntryModel {
        (self.app_name@, self.version@, self.file_name@, self.path@)
    }
}

pub open spec fn views_of(v: Seq<CacheEntry>) -> Seq<EntryModel> {
    v.map_values(|e: CacheEntry| e@)
}

impl CacheEntry {
    /// The entry for the cache file `name` in the directory `dir`; `name` must
    /// already be known to follow the naming scheme.
    pub fn new(dir: &str, name: &str) -> (r: CacheEntry)
        requires
            is_cache_name(name@),
        ensures
            r@ == entry_model(dir@, name@),
    {
        let (app_name, version, file_name) = split_cache_name(name);
        let path = join(dir, name);
        CacheEntry { app_name, version, file_name, path }
    }

    pub fn app_name(&self) -> (r: &str)
        ensures
            r@ == self@.0,
    {
        self.app_name.as_str()
    }

    pub fn version(&self) -> (r: &str)
        ensures
            r@ == self@.1,
    {
        self.version.as_str()
    }

    /// The descriptor, shown as the entry's name in listings.
    pub fn file_name(&self) -> (r: &str)
        ensures
            r@ == self@.2,
    {
        self.file_name.as_str()
    }

    /// The full path of the backing file.
    pub fn path(&self) -> (r: &str)
        ensures
            r@ == self@.3,
    {
        self.path.as_str()
    }
}

/// What a clean asks of the file system.
#[derive(Debug)]
pub enum CleanPlan {
    /// Remove everything inside the directory, keeping the directory.
    EmptyDir(String),
    /// Remove these files, in order, stopping at the first failure.
    RemoveFiles(Vec<String>),
}

/// The destination of a new download and the temporary file written first.
#[derive(Debug)]
pub struct StagePaths {
    pub path: String,
    pub tmp_path: String,
}

/// The suffix of the temporary file of a download.
pub open spec fn download_suffix() -> Seq<char> {
    seq!['.', 'd', 'o', 'w', 'n', 'l', 'o', 'a', 'd']
}

/// The cache directory.
#[derive(Debug)]
pub struct CacheManager {
    working_dir: String,
}

impl View for CacheManager {
    type V = Seq<char>;

    closed spec fn view(&self) -> Seq<char> {
        self.working_dir@
    }
}

/// Whether `p` is exactly `*`.
fn is_star(p: &str) -> (r: bool)
    ensures
        r == (p@ == seq!['*']),
{
    if p.unicode_len() != 1 {
        return false;
    }
    let c = p.get_char(0);
    proof {
        if c == '*' {
            assert(p@ =~= seq!['*']);
        }
    }
    c == '*'
}

/// `p` with one trailing `*` removed, if it ends with one.
fn strip_star(p: &str) -> (r: &str)
    ensures
        r@ == trim_star(p@),
{
    let n = p.unicode_len();
    if n > 0 && p.get_char(n - 1) == '*' {
        p.substring_char(0, n - 1)
    } else {
        proof {
            assert(p@.subrange(0, n as int) =~= p@);
        }
        p.substring_char(0, n)
    }
}

/// Whether `q` is a prefix of `s`.
fn starts_with(s: &str, q: &str) -> (r: bool)
    ensures
        r == q@.is_prefix_of(s@),
{
    let n = s.unicode_len();
    let m = q.unicode_len();
    if m > n {
        return false;
    }
    let mut i: usize = 0;
    while i < m
        invariant
            i <= m <= n,
            m == q@.len(),
            n == s@.len(),
            forall|k: int| 0 <= k < i ==> q@[k] == s@[k],
        decreases m - i,
    {
        if q.get_char(i) != s.get_char(i) {
            assert(q@[i as int] != s@.subrange(0, m as int)[i as int]);
            return false;
        }
        i = i + 1;
    }
    assert(q@ =~= s@.subrange(0, m as int));
    true
}

impl CacheManager {
    /// A manager for the existing directory `working_dir`.
    pub fn new(working_dir: String) -> (r: CacheManager)
        ensures
            r@ == working_dir@,
    {
        CacheManager { working_dir }
    }

    pub fn working_dir(&self) -> (r: &str)
        ensures
            r@ == self@,
    {
        self.working_dir.as_str()
    }

    /// All cache entries of the listing, in listing order; names that do not
    /// follow the naming scheme are skipped.
    pub fn get_all(&self, listing: &Vec<String>) -> (r: Vec<CacheEntry>)
        ensures
            views_of(r@) == scan_model(self@, names_of(listing@)),
    {
        let mut r: Vec<CacheEntry> = Vec::new();
        let mut i: usize = 0;
        while i < listing.len()
            invariant
                i <= listing@.len(),
                views_of(r@) == scan_model(self@, names_of(listing@.subrange(0, i as int))),
            decreases listing@.len() - i,
        {
            let name = listing[i].as_str();
            let ghost pre = names_of(listing@.subrange(0, i as int));
            let ghost now = names_of(listing@.subrange(0, i + 1));
            assert(now.drop_last() =~= pre);
            assert(now.last() == name@);
            if is_cache_file_name(name) {
                let e = CacheEntry::new(self.working_dir.as_str(), name);
                r.push(e);
                assert(views_of(r@) =~= scan_model(self@, pre).push(e@));
            }
            i = i + 1;
        }
        assert(listing@.subrange(0, listing@.len() as int) =~= listing@);
        r
    }

    /// The entries that `pattern` selects: all of them for `*`; else those
    /// whose package name starts with the pattern less one trailing `*`.
    pub fn get(&self, listing: &Vec<String>, pattern: &str) -> (r: Vec<CacheEntry>)
        ensures
            views_of(r@) == query_model(self@, names_of(listing@), pattern@),
    {
        if is_star(pattern) {
            return self.get_all(listing);
        }
        let query = strip_star(pattern);
        let mut r: Vec<CacheEntry> = Vec::new();
        let mut i: usize = 0;
        while i < listing.len()
            invariant
                i <= listing@.len(),
                query@ == trim_star(pattern@),
                views_of(r@) == keep_prefixed(
                    scan_model(self@, names_of(listing@.subrange(0, i as int))),
                    query@,
                ),
            decreases listing@.len() - i,
        {
            let name = listing[i].as_str();
            let ghost pre = names_of(listing@.subrange(0, i as int));
            let ghost now = names_of(listing@.subrange(0, i + 1));
            assert(now.drop_last() =~= pre);
            assert(now.last() == name@);
            if is_cache_file_name(name) {
                let e = CacheEntry::new(self.working_dir.as_str(), name);
                let ghost s = scan_model(self@, pre);
                assert(s.push(e@).drop_last() =~= s);
                if starts_with(e.app_name(), query) {
                    r.push(e);
                    assert(views_of(r@) =~= keep_prefixed(s, query@).push(e@));
                }
            }
            i = i + 1;
        }
        assert(listing@.subrange(0, listing@.len() as int) =~= listing@);
        r
    }

    /// The plan of a full wipe: empty the working directory, keep the directory.
    pub fn clean_all(&self) -> (r: CleanPlan)
        ensures
            r is EmptyDir,
            r->EmptyDir_0@ == self@,
    {
        CleanPlan::EmptyDir(self.working_dir.clone())
    }

    /// The plan of `clean(pattern)`: a full wipe for `*`; else the removal of
    /// the files of the entries that `pattern` selects, in listing order.
    pub fn clean(&self, listing: &Vec<String>, pattern: &str) -> (r: CleanPlan)
        ensures
            pattern@ == seq!['*'] ==> r is EmptyDir && r->EmptyDir_0@ == self@,
            pattern@ != seq!['*'] ==> r is RemoveFiles && names_of(r->RemoveFiles_0@) == paths_of(
                query_model(self@, names_of(listing@), pattern@),
            ),
    {
        if is_star(pattern) {
            return self.clean_all();
        }
        let items = self.get(listing, pattern);
        let ghost es = views_of(items@);
        let mut paths: Vec<String> = Vec::new();
        let mut i: usize = 0;
        while i < items.len()
            invariant
                i <= items@.len(),
                es == views_of(items@),
                names_of(paths@) == paths_of(es.subrange(0, i as int)),
            decreases items@.len() - i,
        {
            let p = String::from_str(items[i].path());
            let ghost before = paths@;
            paths.push(p);
            assert(es[i as int] == items@[i as int]@);
            assert(names_of(paths@) =~= names_of(before).push(p@));
            assert(es.subrange(0, i + 1) =~= es.subrange(0, i as int).push(es[i as int]));
            assert(names_of(paths@) =~= paths_of(es.subrange(0, i + 1)));
            i = i + 1;
        }
        assert(es.subrange(0, es.len() as int) =~= es);
        CleanPlan::RemoveFiles(paths)
    }

    /// The paths for a new download of `filename`: the destination in the
    /// working directory, and beside it the same path with `.download` added.
    /// The caller removes stale files at both before writing.
    pub fn create(&self, filename: &str) -> (r: StagePaths)
        ensures
            r.path@ == join_path(self@, filename@),
            r.tmp_path@ == r.path@ + download_suffix(),
    {
        let path = join(self.working_dir.as_str(), filename);
        let mut tmp_path = path.clone();
        proof {
            reveal_strlit(".download");
        }
        tmp_path.append(".download");
        assert(".download"@ =~= download_suffix());
        StagePaths { path, tmp_path }
    }
}

} // verus!

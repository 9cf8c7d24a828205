//! The file manager: path resolution and a cache of loaded file content.
//!
//! The manager never touches the disk itself. A caller that holds freshly
//! read text hands it to [`FileManager::insert_file`]; from then on every
//! request for the same resolved path is answered from the cache.

use vstd::prelude::*;

verus! {

/// Configuration of a [`FileManager`].
pub struct Options {
    /// If set, paths are resolved as if they were relative to this directory.
    pub working_directory: Option<String>,
}

impl Clone for Options {
    fn clone(&self) -> (r: Self)
        ensures
            r == *self,
    {
        Options {
            working_directory: match &self.working_directory {
                Some(dir) => Some(dir.clone()),
                None => None,
            },
        }
    }
}

/// The mathematical content of a [`FileRef`]: its resolved path and its text.
pub struct FileView {
    pub path: Seq<char>,
    pub content: Seq<char>,
}

/// A cheaply cloneable reference to a file in the file manager.
///
/// Immutable after creation: the resolved path and the decoded text never
/// change, however long the handle is held.
pub struct FileRef {
    path: String,
    content: String,
}

impl View for FileRef {
    type V = FileView;

    closed spec fn view(&self) -> FileView {
        FileView { path: self.path@, content: self.content@ }
    }
}

impl Clone for FileRef {
    fn clone(&self) -> (r: Self)
        ensures
            r == *self,
    {
        FileRef { path: self.path.clone(), content: self.content.clone() }
    }
}

impl FileRef {
    /// Make a handle from an already resolved path and its text.
    pub fn new(path: String, content: String) -> (r: Self)
        ensures
            r@ == (FileView { path: path@, content: content@ }),
    {
        FileRef { path, content }
    }

    /// Retrieve the path of the file.
    pub fn path(&self) -> (r: &str)
        ensures
            r@ == self@.path,
    {
        self.path.as_str()
    }

    /// Retrieve the content of the file.
    pub fn content(&self) -> (r: &str)
        ensures
            r@ == self@.content,
    {
        self.content.as_str()
    }

    /// Whether this handle's resolved path equals the given one.
    fn path_eq(&self, other: &String) -> (r: bool)
        ensures
            r == (self@.path == other@),
    {
        self.path == *other
    }
}

/// A path is relative when it does not start with the separator.
pub open spec fn is_relative_path(p: Seq<char>) -> bool {
    p.len() == 0 || p[0] != '/'
}

/// Join a path to a directory, inserting a separator only where the
/// directory does not already end in one. An empty directory leaves the
/// path unchanged.
pub open spec fn join_path(dir: Seq<char>, p: Seq<char>) -> Seq<char> {
    if dir.len() == 0 {
        p
    } else if dir[dir.len() - 1] == '/' {
        dir + p
    } else {
        dir + seq!['/'] + p
    }
}

/// The resolution policy: a relative path is joined to the working
/// directory when one is configured; an absolute path, or any path when no
/// working directory is set, is used unchanged.
pub open spec fn resolve_spec(wd: Option<Seq<char>>, p: Seq<char>) -> Seq<char> {
    match wd {
        Some(dir) => if is_relative_path(p) {
            join_path(dir, p)
        } else {
            p
        },
        None => p,
    }
}

/// Whether some cached file has the given resolved path.
pub open spec fn contains_path(cache: Seq<FileView>, p: Seq<char>) -> bool {
    exists|i: int| 0 <= i < cache.len() && cache[i].path == p
}

/// The index of the cached file with the given resolved path.
pub open spec fn path_index(cache: Seq<FileView>, p: Seq<char>) -> int {
    choose|i: int| 0 <= i < cache.len() && cache[i].path == p
}

/// The cached file with the given resolved path.
pub open spec fn entry_at(cache: Seq<FileView>, p: Seq<char>) -> FileView {
    cache[path_index(cache, p)]
}

/// Each resolved path occurs at most once in the cache.
pub open spec fn unique_paths(cache: Seq<FileView>) -> bool {
    forall|i: int, j: int|
        0 <= i < cache.len() && 0 <= j < cache.len() && i != j ==> cache[i].path != cache[j].path
}

/// What one load does to the cache: a path already present is left exactly
/// as it is, content included; a new path is appended with its text.
pub open spec fn cache_insert(cache: Seq<FileView>, p: Seq<char>, content: Seq<char>) -> Seq<
    FileView,
> {
    if contains_path(cache, p) {
        cache
    } else {
        cache.push(FileView { path: p, content })
    }
}

/// Cache identity: loading a path fixes its content. Once text is cached
/// under a resolved path, loading the same path again — even with different
/// text, as when the file changed on disk — leaves the cache exactly as it
/// is, and the entry for the path keeps the content loaded first.
pub proof fn lemma_cache_identity(
    cache: Seq<FileView>,
    p: Seq<char>,
    c1: Seq<char>,
    c2: Seq<char>,
)
    requires
        unique_paths(cache),
        !contains_path(cache, p),
    ensures
        ({
            let once = cache_insert(cache, p, c1);
            &&& unique_paths(once)
            &&& contains_path(once, p)
            &&& cache_insert(once, p, c2) == once
            &&& entry_at(once, p) == (FileView { path: p, content: c1 })
        }),
{
    let once = cache.push(FileView { path: p, content: c1 });
    assert(once[cache.len() as int].path == p);
    assert forall|i: int, j: int|
        0 <= i < once.len() && 0 <= j < once.len() && i != j implies once[i].path
        != once[j].path by {
        if i < cache.len() && j < cache.len() {
            assert(cache[i].path != cache[j].path);
        }
    }
    let w = path_index(once, p);
    assert(once[w].path == p);
    assert(w == cache.len() as int);
}

/// Path resolution is idempotent under an absolute working directory: a
/// resolved path resolves to itself. A relative path and its joined
/// absolute form therefore name the same cache entry.
pub proof fn lemma_resolution_idempotent(wd: Seq<char>, p: Seq<char>)
    requires
        !is_relative_path(wd),
    ensures
        resolve_spec(Some(wd), resolve_spec(Some(wd), p)) == resolve_spec(Some(wd), p),
{
    if is_relative_path(p) {
        assert(join_path(wd, p)[0] == '/');
    }
}

/// Whether the given path is relative in the sense of [`is_relative_path`].
fn path_is_relative(p: &str) -> (r: bool)
    ensures
        r == is_relative_path(p@),
{
    p.unicode_len() == 0 || p.get_char(0) != '/'
}

/// Manager for file content handed in by the loader, cached in memory.
pub struct FileManager {
    options: Options,
    cache: Vec<FileRef>,
}

impl FileManager {
    /// The configuration the manager was built with.
    pub closed spec fn spec_options(&self) -> Options {
        self.options
    }

    /// The configured working directory, as a sequence of characters.
    pub open spec fn wd_view(&self) -> Option<Seq<char>> {
        match self.spec_options().working_directory {
            Some(dir) => Some(dir@),
            None => None,
        }
    }

    /// The cached files, in the order they were loaded.
    pub closed spec fn cache(&self) -> Seq<FileView> {
        self.cache@.map_values(|f: FileRef| f@)
    }

    /// The cache invariant: no resolved path occurs twice.
    pub open spec fn wf(&self) -> bool {
        unique_paths(self.cache())
    }

    pub fn new(options: Options) -> (r: Self)
        ensures
            r.wf(),
            r.spec_options() == options,
            r.cache() == Seq::<FileView>::empty(),
    {
        let r = FileManager { options, cache: Vec::new() };
        proof {
            assert(r.cache() =~= Seq::<FileView>::empty());
        }
        r
    }

    /// Retrieve the options of the file manager.
    pub fn options(&self) -> (r: &Options)
        ensures
            *r == self.spec_options(),
    {
        &self.options
    }

    /// Resolve a requested path against the working directory.
    pub fn resolve_path(&self, path: &str) -> (r: String)
        ensures
            r@ == resolve_spec(self.wd_view(), path@),
    {
        match &self.options.working_directory {
            Some(dir) => {
                if path_is_relative(path) {
                    let dir_len = dir.as_str().unicode_len();
                    if dir_len == 0 {
                        path.to_owned()
                    } else {
                        let mut r = dir.clone();
                        if dir.as_str().get_char(dir_len - 1) != '/' {
                            r.append("/");
                            proof {
                                reveal_strlit("/");
                                assert(r@ =~= dir@ + seq!['/']);
                            }
                        }
                        r.append(path);
                        proof {
                            if dir@[dir@.len() - 1] != '/' {
                                assert(r@ =~= dir@ + seq!['/'] + path@);
                            }
                        }
                        r
                    }
                } else {
                    path.to_owned()
                }
            },
            None => path.to_owned(),
        }
    }

    /// Look a path up in the cache, after resolving it.
    ///
    /// A hit returns a handle to the content loaded first for that resolved
    /// path, whatever is on disk now; a miss returns `None` and changes
    /// nothing, leaving the read to the caller.
    pub fn cached_file(&self, path: &str) -> (r: Option<FileRef>)
        requires
            self.wf(),
        ensures
            ({
                let rp = resolve_spec(self.wd_view(), path@);
                match r {
                    Some(f) => contains_path(self.cache(), rp) && f@ == entry_at(self.cache(), rp),
                    None => !contains_path(self.cache(), rp),
                }
            }),
    {
        let resolved = self.resolve_path(path);
        let ghost rp = resolved@;
        let mut i: usize = 0;
        while i < self.cache.len()
            invariant
                self.wf(),
                i <= self.cache.len(),
                rp == resolved@,
                rp == resolve_spec(self.wd_view(), path@),
                forall|j: int| 0 <= j < i ==> self.cache()[j].path != rp,
            decreases self.cache.len() - i,
        {
            if self.cache[i].path_eq(&resolved) {
                let file = self.cache[i].clone();
                proof {
                    assert(self.cache()[i as int].path == rp);
                    let w = path_index(self.cache(), rp);
                    assert(self.cache()[w].path == rp);
                    assert(w == i as int);
                }
                return Some(file);
            }
            i += 1;
        }
        None
    }

    /// Insert freshly loaded text for a path, after resolving it.
    ///
    /// When the resolved path is already cached the given content is
    /// discarded and the previously cached handle is returned unconditionally,
    /// so at most one load is ever kept per resolved path. Otherwise the
    /// content is cached under the resolved path and a handle to it returned.
    pub fn insert_file(&mut self, path: &str, content: String) -> (r: FileRef)
        requires
            old(self).wf(),
        ensures
            final(self).wf(),
            final(self).spec_options() == old(self).spec_options(),
            ({
                let rp = resolve_spec(old(self).wd_view(), path@);
                &&& final(self).cache() == cache_insert(old(self).cache(), rp, content@)
                &&& r@ == if contains_path(old(self).cache(), rp) {
                    entry_at(old(self).cache(), rp)
                } else {
                    FileView { path: rp, content: content@ }
                }
            }),
    {
        if let Some(f) = self.cached_file(path) {
            return f;
        }
        let resolved = self.resolve_path(path);
        let file = FileRef { path: resolved, content };
        let r = file.clone();
        self.cache.push(file);
        proof {
            let rp = resolve_spec(old(self).wd_view(), path@);
            assert(self.cache() =~= old(self).cache().push(r@));
            assert forall|i: int, j: int|
                0 <= i < self.cache().len() && 0 <= j < self.cache().len() && i
                    != j implies self.cache()[i].path != self.cache()[j].path by {
                if i < old(self).cache().len() && j < old(self).cache().len() {
                    assert(old(self).cache()[i].path != old(self).cache()[j].path);
                }
            }
        }
        r
    }
}

} // verus!

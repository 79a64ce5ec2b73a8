//! The virtual filesystem over its in-memory index: path grammar validation,
//! existence checks, range listing, and folder creation with parent-existence
//! and no-clobber invariants.
//!
//! The index holds the entries in strictly ascending path order (lexicographic
//! by code point), which is also the order that listings report. The durable
//! store is kept in step by the host: every successful mutation here is
//! mirrored outward after its result is observed.

use vstd::prelude::*;
use vstd::string::StringExecFns;
use crate::text::chars_lt;
use crate::text::string_of_chars;
use crate::text::chars_vec;
use crate::text::lemma_lex_lt_irrefl;
use crate::text::lemma_lex_lt_total;
use crate::text::lemma_lex_lt_trans;
use crate::text::lex_lt;
use crate::text::str_eq;
use crate::vfs::entry::FSEntry;
use crate::vfs::entry::FSEntryV;
use crate::vfs::errors::SimpleFSError;
use crate::vfs::entry::FSEntryKind;
use crate::vfs::entry::FSEntryKindV;
use crate::vfs::entry::FSEntryMetadata;
use crate::vfs::entry::FSFolder;

verus! {

/// The views of a sequence of entries.
pub open spec fn entry_views(s: Seq<FSEntry>) -> Seq<FSEntryV> {
    s.map_values(|e: FSEntry| e@)
}

/// Index-wise condition of the path grammar: no null byte, no backslash, and
/// no empty segment (two adjacent separators).
pub open spec fn ok_path_index(s: Seq<char>, i: int) -> bool {
    s[i] != '\u{0}' && s[i] != '\\' && !(i >= 1 && s[i] == '/' && s[i - 1] == '/')
}

/// The path grammar: segments free of the null-byte class, separated by
/// single slashes.
pub open spec fn is_folder_path_spec(s: Seq<char>) -> bool {
    forall|i: int| 0 <= i < s.len() ==> #[trigger] ok_path_index(s, i)
}

/// An absolute path starts with the root separator.
pub open spec fn is_absolute_path_spec(s: Seq<char>) -> bool {
    s.len() > 0 && s[0] == '/'
}

/// Whether `p` falls in the listing range of `base`: at or after `base` and
/// before `base` extended by the maximal sentinel character.
pub open spec fn in_listing_range(base: Seq<char>, p: Seq<char>) -> bool {
    !lex_lt(p, base) && lex_lt(p, base.push('\u{ffff}'))
}

/// The listing-range predicate on entries, as a value.
pub open spec fn range_pred(base: Seq<char>) -> spec_fn(FSEntryV) -> bool {
    |e: FSEntryV| in_listing_range(base, e.abs_path)
}

/// The virtual filesystem: an in-memory index of entries, strictly ordered by
/// absolute path, plus the readiness of the durable store behind it.
pub struct SimpleFS {
    files: Vec<FSEntry>,
    ready: bool,
    clock_ms: u64,
}

impl SimpleFS {
    /// The indexed entries, in index order.
    pub closed spec fn entries(&self) -> Seq<FSEntryV> {
        entry_views(self.files@)
    }

    /// Whether the durable store connection has been established.
    pub closed spec fn is_ready(&self) -> bool {
        self.ready
    }

    /// The wall-clock mirror entries are stamped with, in UNIX-epoch
    /// milliseconds; the host keeps it current.
    pub closed spec fn clock_spec(&self) -> u64 {
        self.clock_ms
    }

    /// The indexed absolute paths, in index order.
    pub open spec fn paths(&self) -> Seq<Seq<char>> {
        self.entries().map_values(|e: FSEntryV| e.abs_path)
    }

    /// Whether some entry is keyed by `p`.
    pub open spec fn contains_path(&self, p: Seq<char>) -> bool {
        exists|i: int| 0 <= i < self.entries().len() && #[trigger] self.entries()[i].abs_path == p
    }

    /// Well-formedness: entries strictly ascending by path, so no two share
    /// an absolute path.
    pub open spec fn wf(&self) -> bool {
        forall|i: int, j: int|
            0 <= i < j < self.entries().len() ==> lex_lt(
                #[trigger] self.entries()[i].abs_path,
                #[trigger] self.entries()[j].abs_path,
            )
    }

    /// The entries of the index whose paths fall in the listing range of
    /// `base`, in index order.
    pub open spec fn listing(&self, base: Seq<char>) -> Seq<FSEntryV> {
        self.entries().filter(range_pred(base))
    }

    /// A fresh filesystem: empty index, store not yet connected.
    pub fn new() -> (r: Self)
        ensures
            r.entries().len() == 0,
            !r.is_ready(),
            r.wf(),
            r.clock_spec() == 0,
    {
        let r = SimpleFS { files: Vec::new(), ready: false, clock_ms: 0 };
        proof {
            assert(r.entries() =~= Seq::<FSEntryV>::empty());
        }
        r
    }

    /// Marks the durable store as connected. The host calls this once the
    /// storage adapter has been opened.
    pub fn init(&mut self)
        ensures
            final(self).is_ready(),
            final(self).entries() == old(self).entries(),
            final(self).wf() == old(self).wf(),
            final(self).clock_spec() == old(self).clock_spec(),
    {
        self.ready = true;
    }

    /// Sets the wall-clock mirror used to stamp new entries; the host calls
    /// this once per frame.
    pub fn set_clock(&mut self, now_ms: u64)
        ensures
            final(self).clock_spec() == now_ms,
            final(self).entries() == old(self).entries(),
            final(self).is_ready() == old(self).is_ready(),
            final(self).wf() == old(self).wf(),
    {
        self.clock_ms = now_ms;
    }

    /// Validates the path grammar; a path with null-byte-class characters or
    /// malformed separators is rejected.
    pub fn is_folder_path(path: &str) -> (r: bool)
        ensures
            r == is_folder_path_spec(path@),
    {
        let cs = chars_vec(path);
        let n = cs.len();
        let mut i: usize = 0;
        while i < n
            invariant
                i <= n,
                n == cs@.len(),
                cs@ == path@,
                forall|j: int| 0 <= j < i ==> #[trigger] ok_path_index(path@, j),
            decreases n - i,
        {
            if cs[i] == '\u{0}' || cs[i] == '\\' {
                proof {
                    assert(!ok_path_index(path@, i as int));
                }
                return false;
            }
            if i >= 1 && cs[i] == '/' && cs[i - 1] == '/' {
                proof {
                    assert(!ok_path_index(path@, i as int));
                }
                return false;
            }
            i = i + 1;
        }
        true
    }

    /// True iff the path starts with the root separator.
    pub fn is_absolute_path(path: &str) -> (r: bool)
        ensures
            r == is_absolute_path_spec(path@),
    {
        let cs = chars_vec(path);
        cs.len() > 0 && cs[0] == '/'
    }

    /// Index of the entry keyed by `p`, if any.
    fn find(&self, p: &str) -> (r: Option<usize>)
        ensures
            match r {
                Option::Some(i) => i < self.entries().len() && self.entries()[i as int].abs_path
                    == p@,
                Option::None => !self.contains_path(p@),
            },
    {
        let n = self.files.len();
        let mut i: usize = 0;
        while i < n
            invariant
                i <= n,
                n == self.entries().len(),
                forall|j: int| 0 <= j < i ==> #[trigger] self.entries()[j].abs_path != p@,
            decreases n - i,
        {
            if str_eq(self.files[i].abs_path.as_str(), p) {
                return Option::Some(i);
            }
            i = i + 1;
        }
        Option::None
    }

    /// Inserts `e` at its sorted position, replacing any entry with the same
    /// path.
    fn put(&mut self, e: FSEntry)
        requires
            old(self).wf(),
        ensures
            final(self).wf(),
            final(self).is_ready() == old(self).is_ready(),
            final(self).clock_spec() == old(self).clock_spec(),
            final(self).contains_path(e@.abs_path),
            !old(self).contains_path(e@.abs_path) ==> exists|k: int|
                0 <= k <= old(self).entries().len() && final(self).entries() == old(
                    self,
                ).entries().insert(k, e@),
            old(self).contains_path(e@.abs_path) ==> exists|k: int|
                0 <= k < old(self).entries().len() && old(self).entries()[k].abs_path == e@.abs_path
                    && final(self).entries() == old(self).entries().update(k, e@),
    {
        let ghost pre = *self;
        let n = self.files.len();
        let ep = chars_vec(e.abs_path.as_str());
        let mut i: usize = 0;
        loop
            invariant_except_break
                i <= n,
                n == self.entries().len(),
                *self == pre,
                ep@ == e@.abs_path,
                forall|j: int|
                    0 <= j < i ==> lex_lt(#[trigger] self.entries()[j].abs_path, e@.abs_path),
            ensures
                i <= n,
                n == self.entries().len(),
                *self == pre,
                ep@ == e@.abs_path,
                forall|j: int|
                    0 <= j < i ==> lex_lt(#[trigger] self.entries()[j].abs_path, e@.abs_path),
                i < n ==> !lex_lt(self.entries()[i as int].abs_path, e@.abs_path),
            decreases n - i,
        {
            if i >= n {
                break;
            }
            let c = chars_vec(self.files[i].abs_path.as_str());
            if !chars_lt(&c, &ep) {
                break;
            }
            i = i + 1;
        }
        if i < n && str_eq(self.files[i].abs_path.as_str(), e.abs_path.as_str()) {
            // Replace in place: the path, hence the order, is unchanged.
            let ghost k = i as int;
            self.files.remove(i);
            self.files.insert(i, e);
            proof {
                assert(self.entries() =~= pre.entries().update(k, e@));
                assert forall|x: int, y: int|
                    0 <= x < y < self.entries().len() implies lex_lt(
                    self.entries()[x].abs_path,
                    self.entries()[y].abs_path,
                ) by {
                    assert(self.entries()[x].abs_path == pre.entries()[x].abs_path);
                    assert(self.entries()[y].abs_path == pre.entries()[y].abs_path);
                }
                assert(self.entries()[k].abs_path == e@.abs_path);
                assert(self.contains_path(e@.abs_path));
            }
        } else {
            let ghost k = i as int;
            proof {
                if k < n {
                    // Not less and not equal: the scan stopped strictly above `e`.
                    lemma_lex_lt_total(pre.entries()[k].abs_path, e@.abs_path);
                    assert(lex_lt(e@.abs_path, pre.entries()[k].abs_path));
                }
                if pre.contains_path(e@.abs_path) {
                    let j = choose|j: int|
                        0 <= j < pre.entries().len() && #[trigger] pre.entries()[j].abs_path
                            == e@.abs_path;
                    if j < k {
                        lemma_lex_lt_irrefl(e@.abs_path);
                    } else {
                        lemma_lex_lt_trans(
                            e@.abs_path,
                            pre.entries()[k].abs_path,
                            pre.entries()[j].abs_path,
                        );
                        lemma_lex_lt_irrefl(e@.abs_path);
                    }
                    assert(false);
                }
            }
            self.files.insert(i, e);
            proof {
                assert(self.entries() =~= pre.entries().insert(k, e@));
                assert forall|x: int, y: int|
                    0 <= x < y < self.entries().len() implies lex_lt(
                    self.entries()[x].abs_path,
                    self.entries()[y].abs_path,
                ) by {
                    if x == k {
                        if y - 1 == k {
                            assert(self.entries()[y].abs_path == pre.entries()[k].abs_path);
                        } else {
                            lemma_lex_lt_trans(
                                e@.abs_path,
                                pre.entries()[k].abs_path,
                                pre.entries()[y - 1].abs_path,
                            );
                        }
                    }
                }
                assert(self.entries()[k].abs_path == e@.abs_path);
                assert(self.contains_path(e@.abs_path));
            }
        }
    }

    /// Writes an entry into the index under its absolute path, replacing any
    /// previous entry with that path.
    pub fn write(&mut self, name: &str, contents: FSEntry)
        requires
            old(self).wf(),
            name@ == contents@.abs_path,
        ensures
            final(self).wf(),
            final(self).is_ready() == old(self).is_ready(),
            final(self).clock_spec() == old(self).clock_spec(),
            final(self).contains_path(name@),
            !old(self).contains_path(name@) ==> exists|k: int|
                0 <= k <= old(self).entries().len() && final(self).entries() == old(
                    self,
                ).entries().insert(k, contents@),
            old(self).contains_path(name@) ==> exists|k: int|
                0 <= k < old(self).entries().len() && old(self).entries()[k].abs_path == name@
                    && final(self).entries() == old(self).entries().update(k, contents@),
    {
        self.put(contents);
    }

    /// Point lookup in the index.
    pub fn read(&self, name: &str) -> (r: Option<&FSEntry>)
        ensures
            match r {
                Option::Some(e) => self.contains_path(name@) && e@.abs_path == name@
                    && self.entries().contains(e@),
                Option::None => !self.contains_path(name@),
            },
    {
        match self.find(name) {
            Option::Some(i) => {
                let e = &self.files[i];
                proof {
                    assert(self.entries()[i as int] == e@);
                }
                Option::Some(e)
            },
            Option::None => Option::None,
        }
    }

    /// All indexed paths, in ascending order.
    pub fn list(&self) -> (r: Vec<String>)
        ensures
            r@.map_values(|s: String| s@) == self.paths(),
    {
        let n = self.files.len();
        let mut r: Vec<String> = Vec::new();
        let mut i: usize = 0;
        while i < n
            invariant
                i <= n,
                n == self.entries().len(),
                r@.map_values(|s: String| s@) =~= self.paths().take(i as int),
            decreases n - i,
        {
            let ghost prev = r@;
            r.push(self.files[i].abs_path.clone());
            proof {
                assert(r@.map_values(|s: String| s@) =~= prev.map_values(|s: String| s@).push(
                    self.entries()[i as int].abs_path,
                ));
                assert(self.paths().take(i + 1) =~= self.paths().take(i as int).push(
                    self.paths()[i as int],
                ));
            }
            i = i + 1;
        }
        proof {
            assert(self.paths().take(n as int) =~= self.paths());
        }
        r
    }

    /// Existence check: rejects invalid paths, then performs a point lookup;
    /// an absent key is `false`, not an error.
    pub fn path_exists(&self, path: &str) -> (r: Result<bool, SimpleFSError>)
        ensures
            !is_folder_path_spec(path@) <==> r == Result::<bool, SimpleFSError>::Err(
                SimpleFSError::InvalidPath,
            ),
            is_folder_path_spec(path@) && !self.is_ready() ==> r == Result::<
                bool,
                SimpleFSError,
            >::Err(SimpleFSError::StorageUninitialized),
            is_folder_path_spec(path@) && self.is_ready() ==> r == Result::<
                bool,
                SimpleFSError,
            >::Ok(self.contains_path(path@)),
    {
        if !SimpleFS::is_folder_path(path) {
            return Result::Err(SimpleFSError::InvalidPath);
        }
        if !self.ready {
            return Result::Err(SimpleFSError::StorageUninitialized);
        }
        match self.find(path) {
            Option::Some(_) => Result::Ok(true),
            Option::None => Result::Ok(false),
        }
    }

    /// Lists the entries in the listing range of `path`, in ascending path
    /// order. An invalid path yields an empty result, not an error: a
    /// deliberate leniency, distinct from `exists`'s strictness.
    pub fn read_folder(&self, path: &str) -> (r: Result<Vec<FSEntry>, SimpleFSError>)
        ensures
            !is_folder_path_spec(path@) ==> (r matches Result::Ok(v) && entry_views(v@)
                == Seq::<FSEntryV>::empty()),
            is_folder_path_spec(path@) && !self.is_ready() ==> r == Result::<
                Vec<FSEntry>,
                SimpleFSError,
            >::Err(SimpleFSError::StorageUninitialized),
            is_folder_path_spec(path@) && self.is_ready() ==> (r matches Result::Ok(v)
                && entry_views(v@) == self.listing(path@)),
    {
        if !SimpleFS::is_folder_path(path) {
            let v: Vec<FSEntry> = Vec::new();
            proof {
                assert(entry_views(v@) =~= Seq::<FSEntryV>::empty());
            }
            return Result::Ok(v);
        }
        if !self.ready {
            return Result::Err(SimpleFSError::StorageUninitialized);
        }
        let base = chars_vec(path);
        let mut upper = chars_vec(path);
        upper.push('\u{ffff}');
        let n = self.files.len();
        let mut out: Vec<FSEntry> = Vec::new();
        let mut i: usize = 0;
        while i < n
            invariant
                i <= n,
                n == self.entries().len(),
                base@ == path@,
                upper@ == path@.push('\u{ffff}'),
                entry_views(out@) =~= self.entries().take(i as int).filter(range_pred(path@)),
            decreases n - i,
        {
            let p = chars_vec(self.files[i].abs_path.as_str());
            let lower_ok = !chars_lt(&p, &base);
            let upper_ok = chars_lt(&p, &upper);
            let ghost prev = out@;
            if lower_ok && upper_ok {
                out.push(self.files[i].clone());
            }
            proof {
                let t1 = self.entries().take(i + 1);
                assert(t1.drop_last() =~= self.entries().take(i as int));
                assert(t1.last() == self.entries()[i as int]);
                reveal(Seq::filter);
                if lower_ok && upper_ok {
                    assert(range_pred(path@)(self.entries()[i as int]));
                    assert(entry_views(out@) =~= entry_views(prev).push(
                        self.entries()[i as int],
                    ));
                } else {
                    assert(!range_pred(path@)(self.entries()[i as int]));
                }
            }
            i = i + 1;
        }
        proof {
            assert(self.entries().take(n as int) =~= self.entries());
        }
        Result::Ok(out)
    }
}

/// The sequence without one trailing separator, if any.
pub open spec fn strip_trailing_slash(s: Seq<char>) -> Seq<char> {
    if s.len() > 0 && s.last() == '/' {
        s.drop_last()
    } else {
        s
    }
}

/// The sequence without any trailing separators.
pub open spec fn strip_all_trailing_slashes(s: Seq<char>) -> Seq<char>
    decreases s.len(),
{
    if s.len() > 0 && s.last() == '/' {
        strip_all_trailing_slashes(s.drop_last())
    } else {
        s
    }
}

/// The largest index at or below `d` holding a separator, or -1 if none.
pub open spec fn last_slash_at_most(s: Seq<char>, d: int) -> int
    decreases d + 1,
    when d < s.len()
{
    if d < 0 {
        -1
    } else if s[d] == '/' {
        d
    } else {
        last_slash_at_most(s, d - 1)
    }
}

/// Whether the path consists of separators only (names no entry).
pub open spec fn all_slashes(s: Seq<char>) -> bool {
    forall|i: int| 0 <= i < s.len() ==> s[i] == '/'
}

/// The parent path of an absolute path: everything before the last separator
/// (ignoring one trailing separator), or the root.
pub open spec fn parent_of(s: Seq<char>) -> Seq<char> {
    let t = strip_trailing_slash(s);
    let i = last_slash_at_most(t, t.len() - 1);
    if i <= 0 {
        "/"@
    } else {
        t.take(i)
    }
}

/// The display name of an absolute path: everything after its last separator.
pub open spec fn name_of(s: Seq<char>) -> Seq<char> {
    s.skip(last_slash_at_most(s, s.len() - 1) + 1)
}

/// The absolute path a path names relative to a working directory.
pub open spec fn full_path_spec(cwd: Seq<char>, p: Seq<char>) -> Seq<char> {
    if is_absolute_path_spec(p) {
        p
    } else if cwd == "/"@ {
        "/"@ + p
    } else {
        strip_all_trailing_slashes(cwd) + "/"@ + p
    }
}

/// The error a folder-creation attempt fails with, or `None` when it
/// succeeds: validated in strict order — grammar, absoluteness, store
/// readiness, no-clobber, non-empty name, parent existence (unless the parent
/// is the root).
pub open spec fn create_err_on(ready: bool, paths: Set<Seq<char>>, p: Seq<char>) -> Option<
    SimpleFSError,
> {
    if !is_folder_path_spec(p) {
        Option::Some(SimpleFSError::InvalidPath)
    } else if !is_absolute_path_spec(p) {
        Option::Some(SimpleFSError::InvalidPath)
    } else if !ready {
        Option::Some(SimpleFSError::StorageUninitialized)
    } else if paths.contains(p) {
        Option::Some(SimpleFSError::AlreadyExists)
    } else if all_slashes(p) {
        Option::Some(SimpleFSError::InvalidPath)
    } else if parent_of(p) != "/"@ && !paths.contains(parent_of(p)) {
        Option::Some(SimpleFSError::ParentNotFound)
    } else {
        Option::None
    }
}

/// The new entry is a folder named after the path's last segment, visible,
/// with equal creation and modification stamps.
pub open spec fn created_folder_entry(e: FSEntryV, p: Seq<char>) -> bool {
    &&& e.abs_path == p
    &&& e.entry is Folder
    &&& e.entry.metadata().name == name_of(p)
    &&& !e.entry.metadata().is_hidden
    &&& e.entry.metadata().created_at == e.entry.metadata().modified_at
}

impl SimpleFS {
    /// The set of indexed absolute paths.
    pub open spec fn path_set(&self) -> Set<Seq<char>> {
        self.paths().to_set()
    }

    /// Membership in the path set is membership in the index.
    pub proof fn lemma_path_set(&self, p: Seq<char>)
        ensures
            self.path_set().contains(p) <==> self.contains_path(p),
    {
        if self.path_set().contains(p) {
            let i = choose|i: int| 0 <= i < self.paths().len() && self.paths()[i] == p;
            assert(self.entries()[i].abs_path == p);
        }
        if self.contains_path(p) {
            let i = choose|i: int|
                0 <= i < self.entries().len() && #[trigger] self.entries()[i].abs_path == p;
            assert(self.paths()[i] == p);
            assert(self.paths().contains(p));
        }
    }

    /// Inserting an entry grows the path set by exactly its path.
    pub proof fn lemma_path_set_after_insert(pre: SimpleFS, post: SimpleFS, kk: int, e: FSEntryV)
        requires
            0 <= kk <= pre.entries().len(),
            post.entries() == pre.entries().insert(kk, e),
        ensures
            post.path_set() == pre.path_set().insert(e.abs_path),
    {
        assert forall|p: Seq<char>| post.path_set().contains(p) implies pre.path_set().insert(
            e.abs_path,
        ).contains(p) by {
            let i = choose|i: int| 0 <= i < post.paths().len() && #[trigger] post.paths()[i] == p;
            if i < kk {
                assert(pre.paths()[i] == p);
                assert(pre.paths().contains(p));
            } else if i == kk {
                assert(post.entries()[i] == e);
            } else {
                assert(pre.paths()[i - 1] == p);
                assert(pre.paths().contains(p));
            }
        }
        assert forall|p: Seq<char>| pre.path_set().insert(e.abs_path).contains(p) implies post
            .path_set().contains(p) by {
            if p == e.abs_path {
                assert(post.paths()[kk] == p);
                assert(post.paths().contains(p));
            } else {
                let i = choose|i: int|
                    0 <= i < pre.paths().len() && #[trigger] pre.paths()[i] == p;
                if i < kk {
                    assert(post.paths()[i] == p);
                } else {
                    assert(post.paths()[i + 1] == p);
                }
                assert(post.paths().contains(p));
            }
        }
        assert(post.path_set() =~= pre.path_set().insert(e.abs_path));
    }

    /// The parent path and display name of an absolute, non-root path.
    fn parent_and_name(path: &str) -> (r: (String, String))
        requires
            is_absolute_path_spec(path@),
            !all_slashes(path@),
        ensures
            r.0@ == parent_of(path@),
            r.1@ == name_of(path@),
    {
        let cs = chars_vec(path);
        let n = cs.len();
        // Name: suffix after the last separator of the full path.
        let mut m: usize = n - 1;
        while cs[m] != '/' && m > 0
            invariant
                0 <= m < n,
                n == cs@.len(),
                cs@ == path@,
                is_absolute_path_spec(path@),
                last_slash_at_most(path@, n - 1) == last_slash_at_most(path@, m as int),
            decreases m,
        {
            m = m - 1;
        }
        proof {
            assert(last_slash_at_most(path@, n - 1) == m as int);
        }
        let mut name: Vec<char> = Vec::new();
        let mut q: usize = m + 1;
        while q < n
            invariant
                m + 1 <= q <= n,
                n == cs@.len(),
                cs@ == path@,
                name@ =~= path@.subrange(m + 1, q as int),
            decreases n - q,
        {
            name.push(cs[q]);
            q = q + 1;
        }
        proof {
            assert(name@ =~= path@.skip(m + 1));
        }
        // Parent: strip one trailing separator, then cut at the last one.
        let mut t = chars_vec(path);
        if t.len() > 0 && t[t.len() - 1] == '/' {
            t.pop();
        }
        proof {
            assert(t@ =~= strip_trailing_slash(path@));
            assert(t@.len() > 0 && t@[0] == '/') by {
                let ghost w = choose|i: int| 0 <= i < path@.len() && path@[i] != '/';
                assert(path@[w] != '/');
                if path@.len() > 0 && path@.last() == '/' {
                    assert(w < path@.len() - 1);
                }
            }
        }
        let tn = t.len();
        let mut i: usize = tn - 1;
        while t[i] != '/' && i > 0
            invariant
                0 <= i < tn,
                tn == t@.len(),
                t@ == strip_trailing_slash(path@),
                t@[0] == '/',
                last_slash_at_most(t@, tn - 1) == last_slash_at_most(t@, i as int),
            decreases i,
        {
            i = i - 1;
        }
        proof {
            assert(last_slash_at_most(t@, tn - 1) == i as int);
        }
        let parent: String;
        if i == 0 {
            parent = "/".to_owned();
        } else {
            let mut pv: Vec<char> = Vec::new();
            let mut q2: usize = 0;
            while q2 < i
                invariant
                    0 <= q2 <= i < tn,
                    tn == t@.len(),
                    pv@ =~= t@.subrange(0, q2 as int),
                decreases i - q2,
            {
                pv.push(t[q2]);
                q2 = q2 + 1;
            }
            proof {
                assert(pv@ =~= t@.take(i as int));
            }
            parent = string_of_chars(&pv);
        }
        let name_s = string_of_chars(&name);
        (parent, name_s)
    }

    /// Whether the path names no entry: separators only.
    fn is_all_slashes(path: &str) -> (r: bool)
        ensures
            r == all_slashes(path@),
    {
        let cs = chars_vec(path);
        let n = cs.len();
        let mut i: usize = 0;
        while i < n
            invariant
                i <= n,
                n == cs@.len(),
                cs@ == path@,
                forall|j: int| 0 <= j < i ==> path@[j] == '/',
            decreases n - i,
        {
            if cs[i] != '/' {
                return false;
            }
            i = i + 1;
        }
        true
    }

    /// Creates a folder under an absolute path: validated in strict order
    /// (grammar, absoluteness, store readiness, no-clobber, non-empty name,
    /// parent existence unless the parent is the root); only if all checks
    /// pass is the entry stamped with the current wall time and inserted.
    /// Any check failure short-circuits with its specific error kind and
    /// writes nothing.
    pub fn create_folder_absolute(&mut self, path: &str) -> (r: Result<FSEntry, SimpleFSError>)
        requires
            old(self).wf(),
        ensures
            final(self).wf(),
            final(self).is_ready() == old(self).is_ready(),
            (match r {
                Result::Err(e) => Option::Some(e) == create_err_on(
                    old(self).is_ready(),
                    old(self).path_set(),
                    path@,
                ) && *final(self) == *old(self),
                Result::Ok(entry) => create_err_on(
                    old(self).is_ready(),
                    old(self).path_set(),
                    path@,
                ) is None && created_folder_entry(entry@, path@)
                    && entry@.entry.metadata().created_at == old(self).clock_spec() && exists|
                    kk: int,
                |
                    0 <= kk <= old(self).entries().len() && final(self).entries() == old(
                        self,
                    ).entries().insert(kk, entry@),
            }),
            final(self).clock_spec() == old(self).clock_spec(),
    {
        proof {
            self.lemma_path_set(path@);
        }
        if !SimpleFS::is_folder_path(path) {
            return Result::Err(SimpleFSError::InvalidPath);
        }
        if !SimpleFS::is_absolute_path(path) {
            return Result::Err(SimpleFSError::InvalidPath);
        }
        if !self.ready {
            return Result::Err(SimpleFSError::StorageUninitialized);
        }
        match self.find(path) {
            Option::Some(_) => {
                return Result::Err(SimpleFSError::AlreadyExists);
            },
            Option::None => {},
        }
        if SimpleFS::is_all_slashes(path) {
            return Result::Err(SimpleFSError::InvalidPath);
        }
        let (parent, name) = SimpleFS::parent_and_name(path);
        proof {
            self.lemma_path_set(parent@);
        }
        if !str_eq(parent.as_str(), "/") {
            match self.find(parent.as_str()) {
                Option::None => {
                    return Result::Err(SimpleFSError::ParentNotFound);
                },
                Option::Some(_) => {},
            }
        }
        let now_ms: u64 = self.clock_ms;
        let entry = FSEntry {
            abs_path: path.to_owned(),
            entry: FSEntryKind::Folder(
                FSFolder {
                    metadata: FSEntryMetadata {
                        is_hidden: false,
                        name: name,
                        created_at: now_ms,
                        modified_at: now_ms,
                    },
                },
            ),
        };
        let copy = entry.clone();
        self.put(copy);
        Result::Ok(entry)
    }

    /// Joins a relative path onto the working directory and delegates to the
    /// absolute form; adds no validation of its own.
    pub fn create_folder_relative(&mut self, current_folder: &str, path: &str) -> (r: Result<
        FSEntry,
        SimpleFSError,
    >)
        requires
            old(self).wf(),
        ensures
            final(self).wf(),
            final(self).is_ready() == old(self).is_ready(),
            (match r {
                Result::Err(e) => Option::Some(e) == create_err_on(
                    old(self).is_ready(),
                    old(self).path_set(),
                    full_path_spec(current_folder@, path@),
                ) && *final(self) == *old(self),
                Result::Ok(entry) => create_err_on(
                    old(self).is_ready(),
                    old(self).path_set(),
                    full_path_spec(current_folder@, path@),
                ) is None && created_folder_entry(
                    entry@,
                    full_path_spec(current_folder@, path@),
                ) && entry@.entry.metadata().created_at == old(self).clock_spec() && exists|
                    kk: int,
                |
                    0 <= kk <= old(self).entries().len() && final(self).entries() == old(
                        self,
                    ).entries().insert(kk, entry@),
            }),
            final(self).clock_spec() == old(self).clock_spec(),
    {
        if SimpleFS::is_absolute_path(path) {
            return self.create_folder_absolute(path);
        }
        let mut full: String;
        if str_eq(current_folder, "/") {
            full = "/".to_owned();
            full.append(path);
        } else {
            let cs = chars_vec(current_folder);
            let mut t = cs;
            loop
                invariant_except_break
                    strip_all_trailing_slashes(current_folder@) == strip_all_trailing_slashes(t@),
                ensures
                    t@ == strip_all_trailing_slashes(current_folder@),
                decreases t@.len(),
            {
                if t.len() == 0 {
                    break;
                }
                if t[t.len() - 1] != '/' {
                    break;
                }
                t.pop();
            }
            full = string_of_chars(&t);
            full.append("/");
            full.append(path);
        }
        self.create_folder_absolute(full.as_str())
    }

    /// Creates a folder named relative to the root.
    pub fn create_folder(&mut self, path: &str) -> (r: Result<FSEntry, SimpleFSError>)
        requires
            old(self).wf(),
        ensures
            final(self).wf(),
            final(self).is_ready() == old(self).is_ready(),
            (match r {
                Result::Err(e) => Option::Some(e) == create_err_on(
                    old(self).is_ready(),
                    old(self).path_set(),
                    full_path_spec("/"@, path@),
                ) && *final(self) == *old(self),
                Result::Ok(entry) => create_err_on(
                    old(self).is_ready(),
                    old(self).path_set(),
                    full_path_spec("/"@, path@),
                ) is None && created_folder_entry(entry@, full_path_spec("/"@, path@))
                    && entry@.entry.metadata().created_at == old(self).clock_spec() && exists|
                    kk: int,
                |
                    0 <= kk <= old(self).entries().len() && final(self).entries() == old(
                        self,
                    ).entries().insert(kk, entry@),
            }),
            final(self).clock_spec() == old(self).clock_spec(),
    {
        self.create_folder_relative("/", path)
    }
}

/// Inserting an entry adds exactly it to the members of the index.
pub proof fn lemma_insert_contains(s: Seq<FSEntryV>, k: int, e: FSEntryV, x: FSEntryV)
    requires
        0 <= k <= s.len(),
    ensures
        s.insert(k, e).contains(x) <==> s.contains(x) || x == e,
{
    let t2 = s.insert(k, e);
    if t2.contains(x) {
        let i = choose|i: int| 0 <= i < t2.len() && t2[i] == x;
        if i < k {
            assert(s[i] == x);
        } else if i > k {
            assert(s[i - 1] == x);
        }
    }
    if s.contains(x) {
        let i = choose|i: int| 0 <= i < s.len() && s[i] == x;
        if i < k {
            assert(t2[i] == x);
        } else {
            assert(t2[i + 1] == x);
        }
    }
    if x == e {
        assert(t2[k] == x);
    }
}

/// Law: every entry a listing returns has an absolute path inside the
/// listing range of the base path.
pub proof fn lemma_listing_round_trip(fs: SimpleFS, base: Seq<char>, i: int)
    requires
        0 <= i < fs.listing(base).len(),
    ensures
        in_listing_range(base, fs.listing(base)[i].abs_path),
{
    fs.entries().lemma_filter_pred(range_pred(base), i);
}

/// Law: once a create's result has been observed, re-querying reflects the
/// new entry — the listing of any base whose range covers the created path
/// contains the created entry.
pub proof fn lemma_listing_after_create(
    pre: SimpleFS,
    post: SimpleFS,
    e: FSEntryV,
    kk: int,
    base: Seq<char>,
)
    requires
        0 <= kk <= pre.entries().len(),
        post.entries() == pre.entries().insert(kk, e),
        in_listing_range(base, e.abs_path),
    ensures
        post.listing(base).contains(e),
{
    assert(post.entries()[kk] == e);
    post.entries().lemma_filter_contains(range_pred(base), kk);
}

} // verus!

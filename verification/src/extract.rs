//! What a restore accepts from an archive, entry by entry: safe relative
//! names, regular files and directories only, no duplicates, a directory
//! parent for every nested entry, and the entry and size limits; at the end,
//! exactly the paths the metadata records.
use vstd::prelude::*;

use crate::archive::{archive_entry_path, checked_entry_path, texts};
use crate::error::{fails_with, CacheError, Result};
use crate::limits::{MAX_ENTRIES, MAX_EXTRACTED_BYTES, MAX_FILE_BYTES};
use crate::model::EntryKind;
use crate::sorted::{find_key, keys_view, lemma_insert_sorted, lemma_sorted_unique, strictly_sorted};
use crate::text::chars_of;

verus! {

/// The type of a tar entry, as far as a restore distinguishes it.
#[derive(Debug, Clone, Copy, PartialEq, Eq, Structural)]
pub enum TarEntryType {
    Regular,
    Directory,
    Other,
}

/// The kind recorded for `path` among `seen`, if any.
pub open spec fn kind_of(seen: Seq<(Seq<char>, EntryKind)>, path: Seq<char>) -> Option<EntryKind> {
    if exists|i: int| 0 <= i < seen.len() && (#[trigger] seen[i]).0 == path {
        Some(seen[choose|i: int| 0 <= i < seen.len() && (#[trigger] seen[i]).0 == path].1)
    } else {
        None
    }
}

/// The part of `path` before its last `/`, if it has one.
pub open spec fn parent_of(path: Seq<char>) -> Option<Seq<char>> {
    if exists|i: int| 0 <= i < path.len() && path[i] == '/' {
        let i = choose|i: int|
            0 <= i < path.len() && path[i] == '/' && forall|j: int|
                i < j < path.len() ==> path[j] != '/';
        Some(path.take(i))
    } else {
        None
    }
}

/// The index of the last `/` in `v`, if any.
fn last_slash(v: &Vec<char>) -> (r: Option<usize>)
    ensures
        r is None ==> forall|i: int| 0 <= i < v.len() ==> v@[i] != '/',
        r is Some ==> r->0 < v.len() && v@[r->0 as int] == '/' && forall|j: int|
            r->0 < j < v.len() ==> v@[j] != '/',
{
    let mut i = v.len();
    while i > 0
        invariant
            i <= v.len(),
            forall|j: int| i <= j < v.len() ==> v@[j] != '/',
        decreases i,
    {
        if v[i - 1] == '/' {
            return Some(i - 1);
        }
        i = i - 1;
    }
    None
}

/// Why the next archive entry, named `raw` and of type `ty`, is refused
/// after `seen` and `files` admitted entries: error class and message.
pub open spec fn admission_problem(
    seen: Seq<(Seq<char>, EntryKind)>,
    files: int,
    raw: Seq<char>,
    ty: TarEntryType,
) -> Option<(Seq<char>, Seq<char>)> {
    match archive_entry_path(raw) {
        Err(m) => Some(("unsafe-archive"@, m)),
        Ok(p) => if ty == TarEntryType::Other {
            Some(("unsafe-archive"@, "links and special archive entries are unsupported"@))
        } else if kind_of(seen, p) is Some {
            Some(("unsafe-archive"@, "archive contains duplicate paths"@))
        } else if parent_of(p) is Some && kind_of(seen, parent_of(p)->0) != Some(
            EntryKind::Directory,
        ) {
            Some(("unsafe-archive"@, "archive path has a missing or non-directory parent"@))
        } else if files + 1 > MAX_ENTRIES {
            Some(("entry-limit"@, "archive exceeds 100,000 entries"@))
        } else {
            None
        },
    }
}

pub open spec fn kind_for(ty: TarEntryType) -> EntryKind {
    if ty == TarEntryType::Directory {
        EntryKind::Directory
    } else {
        EntryKind::File
    }
}

/// The paths of `seen`.
pub open spec fn seen_paths(seen: Seq<(Seq<char>, EntryKind)>) -> Seq<Seq<char>> {
    seen.map_values(|e: (Seq<char>, EntryKind)| e.0)
}

/// `a` and `b` hold the same paths (as sets).
pub open spec fn same_paths(a: Seq<Seq<char>>, b: Seq<Seq<char>>) -> bool {
    forall|p: Seq<char>| a.contains(p) <==> b.contains(p)
}

/// The entries a restore has accepted so far, with their count and their
/// total size.
pub struct ExtractState {
    keys: Vec<Vec<char>>,
    kinds: Vec<EntryKind>,
    files: usize,
    bytes: u64,
}

impl ExtractState {
    #[verifier::type_invariant]
    spec fn well_formed(self) -> bool {
        &&& self.keys.len() == self.kinds.len()
        &&& self.files == self.keys.len()
        &&& strictly_sorted(keys_view(self.keys@))
        &&& self.files <= MAX_ENTRIES
        &&& self.bytes <= MAX_EXTRACTED_BYTES
    }

    /// The accepted entries: each path with its kind, in increasing order of
    /// paths.
    pub closed spec fn seen(&self) -> Seq<(Seq<char>, EntryKind)> {
        Seq::new(self.keys.len() as nat, |i: int| (self.keys@[i]@, self.kinds@[i]))
    }

    /// The number of entries admitted.
    pub closed spec fn file_count(&self) -> nat {
        self.files as nat
    }

    /// The total size of the entries accounted.
    pub closed spec fn byte_count(&self) -> nat {
        self.bytes as nat
    }

    pub fn new() -> (r: ExtractState)
        ensures
            r.seen() == Seq::<(Seq<char>, EntryKind)>::empty(),
            r.file_count() == 0,
            r.byte_count() == 0,
    {
        let r = ExtractState { keys: Vec::new(), kinds: Vec::new(), files: 0, bytes: 0 };
        assert(r.seen() =~= Seq::<(Seq<char>, EntryKind)>::empty());
        r
    }

    /// The number of entries accepted, which never exceeds 100,000.
    pub fn files(&self) -> (r: usize)
        ensures
            r == self.file_count(),
            r <= MAX_ENTRIES,
    {
        proof {
            use_type_invariant(self);
        }
        self.files
    }

    /// The total size accounted, which never exceeds 8 GiB.
    pub fn bytes(&self) -> (r: u64)
        ensures
            r == self.byte_count(),
            r <= MAX_EXTRACTED_BYTES,
    {
        proof {
            use_type_invariant(self);
        }
        self.bytes
    }

    /// The kind recorded for `path`, if any.
    fn lookup(&self, path: &Vec<char>) -> (r: Option<EntryKind>)
        ensures
            r == kind_of(self.seen(), path@),
    {
        proof {
            use_type_invariant(self);
        }
        let (found, pos) = find_key(&self.keys, path);
        let ghost seen = self.seen();
        if found {
            proof {
                let c = choose|i: int| 0 <= i < seen.len() && (#[trigger] seen[i]).0 == path@;
                assert(seen[pos as int].0 == path@);
                assert(keys_view(self.keys@)[c] == keys_view(self.keys@)[pos as int]);
                lemma_sorted_unique(keys_view(self.keys@), c, pos as int);
            }
            Some(self.kinds[pos])
        } else {
            assert forall|i: int| 0 <= i < seen.len() implies (#[trigger] seen[i]).0 != path@ by {
                assert(seen[i].0 == self.keys@[i]@);
            }
            None
        }
    }

    /// Accepts the next archive entry, named `raw` and of type `ty`: records
    /// and counts it, and returns its path and kind.
    pub fn accept_entry(&mut self, raw: &str, ty: TarEntryType) -> (r: Result<(String, EntryKind)>)
        ensures
            match admission_problem(old(self).seen(), old(self).file_count() as int, raw@, ty) {
                Some(p) => fails_with(r, p.0, p.1) && *final(self) == *old(self),
                None => {
                    &&& r is Ok
                    &&& archive_entry_path(raw@) == Ok::<Seq<char>, Seq<char>>(r->Ok_0.0@)
                    &&& r->Ok_0.1 == kind_for(ty)
                    &&& exists|pos: int|
                        0 <= pos <= old(self).seen().len() && final(self).seen() == old(
                            self,
                        ).seen().insert(pos, (r->Ok_0.0@, r->Ok_0.1))
                    &&& final(self).file_count() == old(self).file_count() + 1
                    &&& final(self).byte_count() == old(self).byte_count()
                },
            },
    {
        proof {
            use_type_invariant(&*self);
        }
        let path = checked_entry_path(raw)?;
        let kind = match ty {
            TarEntryType::Regular => EntryKind::File,
            TarEntryType::Directory => EntryKind::Directory,
            TarEntryType::Other => {
                return Err(
                    CacheError::new(
                        "unsafe-archive",
                        "links and special archive entries are unsupported",
                    ),
                );
            },
        };
        let v = chars_of(path.as_str());
        if self.lookup(&v).is_some() {
            return Err(CacheError::new("unsafe-archive", "archive contains duplicate paths"));
        }
        match last_slash(&v) {
            Some(i) => {
                let parent = crate::text::slice_chars(&v, 0, i);
                proof {
                    assert(parent_of(v@) == Some(v@.take(i as int))) by {
                        let c = choose|c: int|
                            0 <= c < v@.len() && v@[c] == '/' && forall|j: int|
                                c < j < v@.len() ==> v@[j] != '/';
                        assert(c == i);
                    }
                    assert(parent@ =~= v@.take(i as int));
                }
                if self.lookup(&parent) != Some(EntryKind::Directory) {
                    return Err(
                        CacheError::new(
                            "unsafe-archive",
                            "archive path has a missing or non-directory parent",
                        ),
                    );
                }
            },
            None => {
                assert(parent_of(v@) is None);
            },
        }
        if self.files >= MAX_ENTRIES {
            return Err(CacheError::new("entry-limit", "archive exceeds 100,000 entries"));
        }
        self.insert_entry(v, kind);
        Ok((path, kind))
    }

    /// Accounts the size of an admitted entry against the per-file and total
    /// limits.
    pub fn account_size(&mut self, size: u64) -> (r: Result<()>)
        ensures
            size > MAX_FILE_BYTES ==> fails_with(r, "file-limit"@, "archive file exceeds 1 GiB"@),
            size <= MAX_FILE_BYTES && old(self).byte_count() + size > MAX_EXTRACTED_BYTES
                ==> fails_with(r, "size-limit"@, "archive exceeds 8 GiB"@),
            r is Err ==> *final(self) == *old(self),
            r is Ok <==> size <= MAX_FILE_BYTES && old(self).byte_count() + size
                <= MAX_EXTRACTED_BYTES,
            r is Ok ==> final(self).byte_count() == old(self).byte_count() + size
                && final(self).seen() == old(self).seen() && final(self).file_count() == old(
                self,
            ).file_count(),
    {
        proof {
            use_type_invariant(&*self);
        }
        if size > MAX_FILE_BYTES {
            return Err(CacheError::new("file-limit", "archive file exceeds 1 GiB"));
        }
        let total = self.bytes + size;
        if total > MAX_EXTRACTED_BYTES {
            return Err(CacheError::new("size-limit", "archive exceeds 8 GiB"));
        }
        self.bytes = total;
        Ok(())
    }

    /// Records and counts a new entry at its place in path order.
    fn insert_entry(&mut self, v: Vec<char>, kind: EntryKind)
        requires
            kind_of(old(self).seen(), v@) is None,
            old(self).file_count() < MAX_ENTRIES,
        ensures
            exists|pos: int|
                0 <= pos <= old(self).seen().len() && final(self).seen() == old(self).seen().insert(
                    pos,
                    (v@, kind),
                ),
            final(self).file_count() == old(self).file_count() + 1,
            final(self).byte_count() == old(self).byte_count(),
    {
        proof {
            use_type_invariant(&*self);
        }
        let (found, pos) = find_key(&self.keys, &v);
        let ghost seen = self.seen();
        if found {
            assert(seen[pos as int].0 == v@);
        }
        assert forall|i: int| 0 <= i < seen.len() implies (#[trigger] seen[i]).0 != v@ by {
            assert(seen[i].0 == self.keys@[i]@);
        }
        let ghost kv = keys_view(self.keys@);
        proof {
            assert forall|i: int| 0 <= i < pos implies crate::text::lex_lt(#[trigger] kv[i], v@) by {
                assert(kv[i] == self.keys@[i]@);
            }
            assert forall|i: int| pos <= i < kv.len() implies crate::text::lex_lt(v@, #[trigger] kv[i]) by {
                assert(kv[i] == self.keys@[i]@);
            }
            lemma_insert_sorted(kv, pos as int, v@);
        }
        let ghost path = v@;
        let mut previous = ExtractState::new();
        std::mem::swap(self, &mut previous);
        let ExtractState { mut keys, mut kinds, files, bytes } = previous;
        let ghost old_keys = keys@;
        keys.insert(pos, v);
        kinds.insert(pos, kind);
        assert(keys_view(keys@) =~= kv.insert(pos as int, path));
        *self = ExtractState { keys, kinds, files: files + 1, bytes };
        assert(self.seen() =~= seen.insert(pos as int, (path, kind))) by {
            assert forall|i: int| 0 <= i < self.seen().len() implies self.seen()[i] == seen.insert(
                pos as int,
                (path, kind),
            )[i] by {
                if i < pos {
                    assert(self.keys@[i] == old_keys[i]);
                } else if i > pos {
                    assert(self.keys@[i] == old_keys[i - 1]);
                }
            }
        }
    }

    /// The archive holds exactly the expected paths: the same set, and as
    /// many entries as expected paths. Returns the entry count and size.
    pub fn finish(&self, expected: &[String]) -> (r: Result<(usize, u64)>)
        ensures
            same_paths(seen_paths(self.seen()), texts(expected@)) && self.seen().len()
                == expected.len() ==> r == Ok::<(usize, u64), CacheError>(
                (self.file_count() as usize, self.byte_count() as u64),
            ),
            r is Ok ==> r->Ok_0.0 == self.seen().len() && r->Ok_0.0 == expected.len(),
            !(same_paths(seen_paths(self.seen()), texts(expected@)) && self.seen().len()
                == expected.len()) ==> fails_with(
                r,
                "invalid-entry"@,
                "archive paths do not match metadata"@,
            ),
    {
        proof {
            use_type_invariant(self);
        }
        let ghost seen = seen_paths(self.seen());
        let ghost exp = texts(expected@);
        let ghost kv = keys_view(self.keys@);
        assert(seen =~= kv);
        let n = self.keys.len();
        if expected.len() != n {
            return Err(CacheError::new("invalid-entry", "archive paths do not match metadata"));
        }
        let mut used: Vec<bool> = Vec::new();
        let mut k: usize = 0;
        while k < n
            invariant
                k <= n,
                used.len() == k,
                forall|j: int| 0 <= j < k ==> !(#[trigger] used@[j]),
            decreases n - k,
        {
            used.push(false);
            k = k + 1;
        }
        let mut i: usize = 0;
        while i < expected.len()
            invariant
                n == self.keys.len(),
                n == expected.len(),
                kv == keys_view(self.keys@),
                strictly_sorted(kv),
                exp == texts(expected@),
                seen == kv,
                seen == seen_paths(self.seen()),
                i <= expected.len(),
                used.len() == n,
                forall|j: int| 0 <= j < i ==> kv.contains(#[trigger] exp[j]),
                forall|k: int|
                    0 <= k < n ==> (#[trigger] used@[k] <==> exists|j: int|
                        0 <= j < i && exp[j] == kv[k]),
            decreases expected.len() - i,
        {
            let e = chars_of(expected[i].as_str());
            let (found, pos) = find_key(&self.keys, &e);
            if !found {
                assert(!kv.contains(exp[i as int])) by {
                    if kv.contains(exp[i as int]) {
                        let c = choose|c: int| 0 <= c < kv.len() && kv[c] == exp[i as int];
                        assert(self.keys@[c]@ == e@);
                    }
                }
                assert(exp.contains(exp[i as int]));
                assert(!same_paths(seen, exp));
                return Err(CacheError::new("invalid-entry", "archive paths do not match metadata"));
            }
            assert(kv[pos as int] == exp[i as int]);
            used.set(pos, true);
            assert forall|k: int| 0 <= k < n implies (#[trigger] used@[k] <==> exists|j: int|
                0 <= j < i + 1 && exp[j] == kv[k]) by {
                if k != pos && exp[i as int] == kv[k] {
                    lemma_sorted_unique(kv, k, pos as int);
                }
                if k == pos {
                    assert(exp[i as int] == kv[k]);
                }
            }
            i = i + 1;
        }
        let mut k: usize = 0;
        while k < n
            invariant
                n == self.keys.len(),
                n == expected.len(),
                used.len() == n,
                k <= n,
                kv == keys_view(self.keys@),
                exp == texts(expected@),
                seen == kv,
                seen == seen_paths(self.seen()),
                forall|q: int| 0 <= q < k ==> #[trigger] used@[q],
                forall|j: int| 0 <= j < n ==> kv.contains(#[trigger] exp[j]),
                forall|q: int|
                    0 <= q < n ==> (#[trigger] used@[q] <==> exists|j: int|
                        0 <= j < n && exp[j] == kv[q]),
            decreases n - k,
        {
            if !used[k] {
                assert(!exp.contains(kv[k as int])) by {
                    if exp.contains(kv[k as int]) {
                        let j = choose|j: int| 0 <= j < exp.len() && exp[j] == kv[k as int];
                        assert(exists|j: int| 0 <= j < expected.len() && exp[j] == kv[k as int]);
                    }
                }
                assert(seen.contains(kv[k as int]));
                assert(!same_paths(seen, exp));
                return Err(CacheError::new("invalid-entry", "archive paths do not match metadata"));
            }
            k = k + 1;
        }
        assert(same_paths(seen, exp)) by {
            assert forall|p: Seq<char>| seen.contains(p) <==> exp.contains(p) by {
                if seen.contains(p) {
                    let c = choose|c: int| 0 <= c < seen.len() && seen[c] == p;
                    assert(used@[c]);
                }
                if exp.contains(p) {
                    let j = choose|j: int| 0 <= j < exp.len() && exp[j] == p;
                    assert(kv.contains(exp[j]));
                }
            }
        }
        Ok((self.files, self.bytes))
    }
}

} // verus!

use vstd::prelude::*;

verus! {

use crate::chars::{chars_of, char_vecs_eq};
use crate::StoreError;

/// The part of a filesystem the store manager observes and changes: which
/// regular files exist with what contents, and which paths refuse writes.
/// Every operation of the manager is specified against this view.
#[verifier::ext_equal]
pub struct FsView {
    pub files: Map<Seq<char>, Seq<u8>>,
    pub denied: Set<Seq<char>>,
}

/// An in-memory filesystem carrying exactly the state of `FsView`. The
/// surrounding application mirrors the real filesystem into one of these,
/// lets the verified resolution logic act on it, and applies the changes
/// back to disk.
pub struct FileSystem {
    files: Vec<(String, Vec<u8>)>,
    denied: Vec<String>,
}

spec fn files_map(es: Seq<(String, Vec<u8>)>) -> Map<Seq<char>, Seq<u8>>
    decreases es.len(),
{
    if es.len() == 0 {
        Map::empty()
    } else {
        files_map(es.drop_first()).insert(es[0].0@, es[0].1@)
    }
}

spec fn denied_set(ds: Seq<String>) -> Set<Seq<char>>
    decreases ds.len(),
{
    if ds.len() == 0 {
        Set::empty()
    } else {
        denied_set(ds.drop_first()).insert(ds[0]@)
    }
}

/// Entries whose names all differ from `key` do not affect what the map
/// holds at `key`.
proof fn lemma_files_map_skip(es: Seq<(String, Vec<u8>)>, key: Seq<char>, i: int)
    requires
        0 <= i <= es.len(),
        forall|k: int| 0 <= k < i ==> es[k].0@ != key,
    ensures
        files_map(es).contains_key(key) == files_map(es.skip(i)).contains_key(key),
        files_map(es).contains_key(key) ==> files_map(es)[key] == files_map(es.skip(i))[key],
    decreases i,
{
    if i > 0 {
        lemma_files_map_skip(es.drop_first(), key, i - 1);
        assert(es.skip(i) =~= es.drop_first().skip(i - 1));
    } else {
        assert(es.skip(0) =~= es);
    }
}

proof fn lemma_denied_set_skip(ds: Seq<String>, key: Seq<char>, i: int)
    requires
        0 <= i <= ds.len(),
        forall|k: int| 0 <= k < i ==> ds[k]@ != key,
    ensures
        denied_set(ds).contains(key) == denied_set(ds.skip(i)).contains(key),
    decreases i,
{
    if i > 0 {
        lemma_denied_set_skip(ds.drop_first(), key, i - 1);
        assert(ds.skip(i) =~= ds.drop_first().skip(i - 1));
    } else {
        assert(ds.skip(0) =~= ds);
    }
}

/// Replacing the first entry named `key` updates the map at `key` alone.
proof fn lemma_files_map_update(
    es: Seq<(String, Vec<u8>)>,
    i: int,
    entry: (String, Vec<u8>),
    key: Seq<char>,
)
    requires
        0 <= i < es.len(),
        es[i].0@ == key,
        entry.0@ == key,
        forall|k: int| 0 <= k < i ==> es[k].0@ != key,
    ensures
        files_map(es.update(i, entry)) =~= files_map(es).insert(key, entry.1@),
    decreases i,
{
    let es2 = es.update(i, entry);
    if i == 0 {
        assert(es2.drop_first() =~= es.drop_first());
        assert(files_map(es2) =~= files_map(es.drop_first()).insert(key, entry.1@));
        assert(files_map(es).insert(key, entry.1@) =~= files_map(es.drop_first()).insert(
            key,
            entry.1@,
        ));
    } else {
        lemma_files_map_update(es.drop_first(), i - 1, entry, key);
        assert(es2.drop_first() =~= es.drop_first().update(i - 1, entry));
        assert(files_map(es2) =~= files_map(es.drop_first().update(i - 1, entry)).insert(
            es[0].0@,
            es[0].1@,
        ));
        assert(files_map(es2) =~= files_map(es.drop_first()).insert(key, entry.1@).insert(
            es[0].0@,
            es[0].1@,
        ));
        assert(es[0].0@ != key);
        assert(files_map(es.drop_first()).insert(key, entry.1@).insert(es[0].0@, es[0].1@)
            =~= files_map(es.drop_first()).insert(es[0].0@, es[0].1@).insert(key, entry.1@));
    }
}

/// Appending an entry with a fresh name updates the map at that name alone.
proof fn lemma_files_map_push(es: Seq<(String, Vec<u8>)>, entry: (String, Vec<u8>), key: Seq<char>)
    requires
        entry.0@ == key,
        forall|k: int| 0 <= k < es.len() ==> es[k].0@ != key,
    ensures
        files_map(es.push(entry)) =~= files_map(es).insert(key, entry.1@),
    decreases es.len(),
{
    if es.len() == 0 {
        assert(es.push(entry).drop_first() =~= Seq::<(String, Vec<u8>)>::empty());
        assert(files_map(Seq::<(String, Vec<u8>)>::empty()) =~= Map::<Seq<char>, Seq<u8>>::empty());
        assert(files_map(es) =~= Map::<Seq<char>, Seq<u8>>::empty());
        assert(files_map(es.push(entry)) =~= Map::<Seq<char>, Seq<u8>>::empty().insert(
            key,
            entry.1@,
        ));
    } else {
        lemma_files_map_push(es.drop_first(), entry, key);
        assert(es.push(entry).drop_first() =~= es.drop_first().push(entry));
        assert(files_map(es.push(entry)) =~= files_map(es.drop_first().push(entry)).insert(
            es[0].0@,
            es[0].1@,
        ));
        assert(files_map(es.push(entry)) =~= files_map(es.drop_first()).insert(
            key,
            entry.1@,
        ).insert(es[0].0@, es[0].1@));
        assert(es[0].0@ != key);
        assert(files_map(es.drop_first()).insert(key, entry.1@).insert(es[0].0@, es[0].1@)
            =~= files_map(es.drop_first()).insert(es[0].0@, es[0].1@).insert(key, entry.1@));
    }
}

impl FileSystem {
    /// What this filesystem holds, as the abstract view the contracts use.
    pub closed spec fn fsv(self) -> FsView {
        FsView { files: files_map(self.files@), denied: denied_set(self.denied@) }
    }

    /// An empty filesystem: no files, nothing denied.
    pub fn new() -> (r: FileSystem)
        ensures
            r.fsv().files =~= Map::<Seq<char>, Seq<u8>>::empty(),
            r.fsv().denied =~= Set::<Seq<char>>::empty(),
    {
        FileSystem { files: Vec::new(), denied: Vec::new() }
    }

    /// Marks a path as refusing writes, to stand for a permission failure.
    pub fn deny_path(&mut self, path: String)
        ensures
            final(self).fsv().files == old(self).fsv().files,
            final(self).fsv().denied =~= old(self).fsv().denied.insert(path@),
    {
        let ghost ds0 = self.denied@;
        self.denied.insert(0, path);
        proof {
            assert(self.denied@.drop_first() =~= ds0);
            assert(denied_set(self.denied@) =~= denied_set(ds0).insert(self.denied@[0]@));
        }
    }

    /// Position of the first entry for `path`, if any.
    fn find_file(&self, path: &str) -> (r: Option<usize>)
        ensures
            match r {
                Some(i) => i < self.files@.len() && self.files@[i as int].0@ == path@ && forall|
                    k: int,
                |
                    0 <= k < i ==> self.files@[k].0@ != path@,
                None => forall|k: int| 0 <= k < self.files@.len() ==> self.files@[k].0@ != path@,
            },
    {
        let pc = chars_of(path);
        let n = self.files.len();
        let mut i: usize = 0;
        while i < n
            invariant
                n == self.files@.len(),
                i <= n,
                pc@ == path@,
                forall|k: int| 0 <= k < i ==> self.files@[k].0@ != path@,
            decreases n - i,
        {
            let key = chars_of(self.files[i].0.as_str());
            if char_vecs_eq(&key, &pc) {
                return Some(i);
            }
            i = i + 1;
        }
        None
    }

    fn is_denied(&self, path: &str) -> (r: bool)
        ensures
            r == self.fsv().denied.contains(path@),
    {
        let pc = chars_of(path);
        let n = self.denied.len();
        let mut i: usize = 0;
        while i < n
            invariant
                n == self.denied@.len(),
                i <= n,
                pc@ == path@,
                forall|k: int| 0 <= k < i ==> self.denied@[k]@ != path@,
            decreases n - i,
        {
            let key = chars_of(self.denied[i].as_str());
            if char_vecs_eq(&key, &pc) {
                proof {
                    lemma_denied_set_skip(self.denied@, path@, i as int);
                }
                return true;
            }
            i = i + 1;
        }
        proof {
            lemma_denied_set_skip(self.denied@, path@, n as int);
        }
        false
    }

    /// Whether a regular file exists at `path`.
    pub fn is_file(&self, path: &str) -> (r: bool)
        ensures
            r == self.fsv().files.contains_key(path@),
    {
        let found = self.find_file(path);
        proof {
            match found {
                Some(i) => lemma_files_map_skip(self.files@, path@, i as int),
                None => lemma_files_map_skip(self.files@, path@, self.files@.len() as int),
            }
        }
        match found {
            Some(_) => true,
            None => false,
        }
    }

    /// The contents of the file at `path`, if it exists.
    pub fn read_file(&self, path: &str) -> (r: Option<Vec<u8>>)
        ensures
            match r {
                Some(d) => self.fsv().files.contains_key(path@) && d@ == self.fsv().files[path@],
                None => !self.fsv().files.contains_key(path@),
            },
    {
        let found = self.find_file(path);
        proof {
            match found {
                Some(i) => lemma_files_map_skip(self.files@, path@, i as int),
                None => lemma_files_map_skip(self.files@, path@, self.files@.len() as int),
            }
        }
        match found {
            Some(i) => Some(self.files[i].1.clone()),
            None => None,
        }
    }

    /// Creates or overwrites the file at `path`. Fails, leaving everything
    /// unchanged, exactly when the path refuses writes.
    pub fn write_file(&mut self, path: &str, data: Vec<u8>) -> (r: Result<(), StoreError>)
        ensures
            final(self).fsv().denied == old(self).fsv().denied,
            match r {
                Ok(()) => !old(self).fsv().denied.contains(path@) && final(self).fsv().files
                    =~= old(self).fsv().files.insert(path@, data@),
                Err(e) => e == StoreError::Path && old(self).fsv().denied.contains(path@) && *final(self) == *old(self),
            },
    {
        if self.is_denied(path) {
            return Err(StoreError::Path);
        }
        let ghost es0 = self.files@;
        let name = String::from_str(path);
        let found = self.find_file(path);
        match found {
            Some(i) => {
                self.files.remove(i);
                self.files.insert(i, (name, data));
                proof {
                    assert(self.files@ =~= es0.update(i as int, self.files@[i as int]));
                    lemma_files_map_update(es0, i as int, self.files@[i as int], path@);
                }
            },
            None => {
                self.files.push((name, data));
                proof {
                    lemma_files_map_push(es0, self.files@[es0.len() as int], path@);
                }
            },
        }
        Ok(())
    }

    /// Copies `src` over `dst`. Fails, leaving everything unchanged, when
    /// `src` is missing or `dst` refuses writes.
    pub fn copy_file(&mut self, src: &str, dst: &str) -> (r: Result<(), StoreError>)
        ensures
            final(self).fsv().denied == old(self).fsv().denied,
            match r {
                Ok(()) => old(self).fsv().files.contains_key(src@) && !old(self).fsv().denied.contains(dst@) && final(self).fsv().files =~= old(self).fsv().files.insert(dst@, old(self).fsv().files[src@]),
                Err(e) => e == StoreError::Path && (!old(self).fsv().files.contains_key(src@)
                    || old(self).fsv().denied.contains(dst@)) && *final(self) == *old(self),
            },
    {
        let data = match self.read_file(src) {
            Some(d) => d,
            None => {
                return Err(StoreError::Path);
            },
        };
        self.write_file(dst, data)
    }

    /// Makes sure the directory at `path` can be used. The model tracks no
    /// directory structure; the call fails exactly when the path refuses
    /// writes, as creation on a real filesystem then would.
    pub fn create_dir_all(&mut self, path: &str) -> (r: Result<(), StoreError>)
        ensures
            *final(self) == *old(self),
            match r {
                Ok(()) => !old(self).fsv().denied.contains(path@),
                Err(e) => e == StoreError::Path && old(self).fsv().denied.contains(path@),
            },
    {
        if self.is_denied(path) {
            return Err(StoreError::Path);
        }
        Ok(())
    }
}

} // verus!

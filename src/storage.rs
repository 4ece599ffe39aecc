//! The medium a key store keeps its files on.
use vstd::prelude::*;

use crate::paths::joined;

verus! {

/// A single path component: not empty, without a separator.
pub open spec fn is_component(n: Seq<char>) -> bool {
    n.len() > 0 && !n.contains('/')
}

/// A tree of directories and files addressed by path. Each write is atomic:
/// it happens whole or not at all.
pub trait Storage {
    /// The content of each file, by path.
    spec fn files(&self) -> Map<Seq<char>, Seq<u8>>;

    /// The directories that exist, by path.
    spec fn dirs(&self) -> Set<Seq<char>>;

    fn is_dir(&self, path: &String) -> (r: bool)
        ensures
            r == self.dirs().contains(path@),
    ;

    fn is_file(&self, path: &String) -> (r: bool)
        ensures
            r == self.files().contains_key(path@),
    ;

    /// Reads a whole file; fails exactly where it is absent.
    fn read(&self, path: &String) -> (r: Result<Vec<u8>, String>)
        ensures
            r matches Ok(b) ==> self.files().contains_key(path@) && b@ == self.files()[path@],
            r is Err <==> !self.files().contains_key(path@),
    ;

    /// Creates `dir` where it is missing and writes the file `name` in it,
    /// replacing what it held.
    fn write(&mut self, dir: &String, name: &String, bytes: &Vec<u8>) -> (r: Result<(), String>)
        ensures
            r is Ok ==> final(self).files() == old(self).files().insert(
                joined(dir@, name@),
                bytes@,
            ),
            r is Ok ==> final(self).dirs() == old(self).dirs().insert(dir@),
            r is Err ==> final(self).files() == old(self).files(),
            r is Err ==> final(self).dirs() == old(self).dirs(),
    ;

    /// Removes a file.
    fn remove(&mut self, path: &String) -> (r: Result<(), String>)
        ensures
            r is Ok ==> final(self).files() == old(self).files().remove(path@),
            r is Err ==> final(self).files() == old(self).files(),
            final(self).dirs() == old(self).dirs(),
    ;

    /// The names of the files directly in `dir`, each once.
    fn file_names(&self, dir: &String) -> (r: Vec<String>)
        ensures
            forall|i: int| 0 <= i < r.len() ==> self.files().contains_key(joined(dir@, #[trigger] r[i]@))
                && is_component(r[i]@),
            forall|i: int, j: int| 0 <= i < j < r.len() ==> r[i]@ != r[j]@,
            forall|n: Seq<char>| is_component(n) && #[trigger] self.files().contains_key(joined(dir@, n))
                ==> exists|i: int| 0 <= i < r.len() && r[i]@ == n,
    ;

    /// The names of the directories directly under `path`, each once.
    fn sub_dirs(&self, path: &String) -> (r: Vec<String>)
        ensures
            forall|i: int| 0 <= i < r.len() ==> self.dirs().contains(joined(path@, #[trigger] r[i]@))
                && is_component(r[i]@),
            forall|i: int, j: int| 0 <= i < j < r.len() ==> r[i]@ != r[j]@,
            forall|n: Seq<char>| is_component(n) && #[trigger] self.dirs().contains(joined(path@, n))
                ==> exists|i: int| 0 <= i < r.len() && r[i]@ == n,
    ;
}

} // verus!

verus! {

/// What a log of writes (`Some`) and removals (`None`) leaves, the latest
/// entry for a path deciding.
pub open spec fn replayed(entries: Seq<(String, Option<Vec<u8>>)>) -> Map<Seq<char>, Seq<u8>>
    decreases entries.len(),
{
    if entries.len() == 0 {
        Map::empty()
    } else {
        let rest = replayed(entries.drop_last());
        match entries.last().1 {
            Some(b) => rest.insert(entries.last().0@, b@),
            None => rest.remove(entries.last().0@),
        }
    }
}

proof fn lemma_latest_decides(entries: Seq<(String, Option<Vec<u8>>)>, p: Seq<char>, i: int)
    requires
        0 <= i < entries.len(),
        entries[i].0@ == p,
        forall|j: int| i < j < entries.len() ==> (#[trigger] entries[j]).0@ != p,
    ensures
        replayed(entries).contains_key(p) == entries[i].1 is Some,
        entries[i].1 matches Some(b) ==> replayed(entries)[p] == b@,
    decreases entries.len(),
{
    if i < entries.len() - 1 {
        let rest = entries.drop_last();
        assert(entries.last() == entries[entries.len() - 1]);
        assert forall|j: int| i < j < rest.len() implies (#[trigger] rest[j]).0@ != p by {
            assert(rest[j] == entries[j]);
        }
        lemma_latest_decides(rest, p, i);
    }
}

proof fn lemma_never_written(entries: Seq<(String, Option<Vec<u8>>)>, p: Seq<char>)
    requires
        forall|j: int| 0 <= j < entries.len() ==> (#[trigger] entries[j]).0@ != p,
    ensures
        !replayed(entries).contains_key(p),
    decreases entries.len(),
{
    if entries.len() > 0 {
        let rest = entries.drop_last();
        assert(entries.last() == entries[entries.len() - 1]);
        assert forall|j: int| 0 <= j < rest.len() implies (#[trigger] rest[j]).0@ != p by {
            assert(rest[j] == entries[j]);
        }
        lemma_never_written(rest, p);
    }
}

/// A medium held in memory. It keeps every write and removal in order; the
/// latest one for a path decides what the path holds.
pub struct MemoryStorage {
    entries: Vec<(String, Option<Vec<u8>>)>,
    dir_list: Vec<String>,
}

impl MemoryStorage {
    /// An empty medium: no files and no directories.
    pub fn new() -> (r: MemoryStorage)
        ensures
            r.files() == Map::<Seq<char>, Seq<u8>>::empty(),
            r.dirs() == Set::<Seq<char>>::empty(),
    {
        let r = MemoryStorage { entries: Vec::new(), dir_list: Vec::new() };
        assert(r.dirs() =~= Set::<Seq<char>>::empty());
        r
    }

    /// Creates a directory.
    pub fn create_dir(&mut self, path: &String)
        ensures
            final(self).files() == old(self).files(),
            final(self).dirs() == old(self).dirs().insert(path@),
    {
        if !self.is_dir(path) {
            self.dir_list.push(path.clone());
        }
        assert(self.dirs() =~= old(self).dirs().insert(path@)) by {
            assert forall|d: Seq<char>| self.dirs().contains(d) implies old(self).dirs().insert(
                path@,
            ).contains(d) by {
                let i = choose|i: int| 0 <= i < self.dir_list@.len() && self.dir_list@[i]@ == d;
                if i < old(self).dir_list@.len() {
                    assert(old(self).dir_list@[i] == self.dir_list@[i]);
                }
            }
            assert forall|d: Seq<char>| old(self).dirs().contains(d) implies self.dirs().contains(d) by {
                let i = choose|i: int| 0 <= i < old(self).dir_list@.len() && old(self).dir_list@[i]@ == d;
                assert(self.dir_list@[i] == old(self).dir_list@[i]);
            }
            if !old(self).dirs().contains(path@) {
                assert(self.dir_list@[self.dir_list@.len() - 1]@ == path@);
            }
        }
    }

    /// The index of the latest entry for a path.
    fn latest(&self, path: &String) -> (r: Option<usize>)
        ensures
            r matches Some(i) ==> i < self.entries@.len() && self.entries@[i as int].0@ == path@
                && forall|j: int| i < j < self.entries@.len() ==> (#[trigger] self.entries@[j]).0@ != path@,
            r is None ==> forall|j: int| 0 <= j < self.entries@.len() ==> (#[trigger] self.entries@[j]).0@ != path@,
    {
        let mut k: usize = self.entries.len();
        while k > 0
            invariant
                k <= self.entries@.len(),
                forall|j: int| k <= j < self.entries@.len() ==> (#[trigger] self.entries@[j]).0@ != path@,
            decreases k,
        {
            if self.entries[k - 1].0 == *path {
                return Some(k - 1);
            }
            k = k - 1;
        }
        None
    }
}

/// The name that follows `base` and a separator in `full`, where `full`
/// lies directly under `base`.
fn child_name(base: &String, full: &String) -> (r: Option<String>)
    ensures
        r matches Some(n) ==> joined(base@, n@) == full@ && is_component(n@),
        forall|n: Seq<char>| is_component(n) && full@ == joined(base@, n) ==> (r matches Some(m)
            && m@ == n),
{
    let plen = base.as_str().unicode_len();
    let d = full.as_str();
    let dlen = d.unicode_len();
    if plen < dlen && dlen - plen > 1 {
        let head = String::from_str(d.substring_char(0, plen));
        if head == *base && d.get_char(plen) == '/' {
            let name = String::from_str(d.substring_char(plen + 1, dlen));
            assert(joined(base@, name@) =~= full@);
            let nlen = dlen - plen - 1;
            let mut k: usize = 0;
            while k < nlen
                invariant
                    k <= nlen == name@.len(),
                    forall|j: int| 0 <= j < k ==> name@[j] != '/',
                    plen == base@.len(),
                    dlen == full@.len(),
                    plen < dlen,
                    nlen == dlen - plen - 1,
                    name@ == full@.subrange(plen + 1, dlen as int),
                    joined(base@, name@) == full@,
                decreases nlen - k,
            {
                if name.as_str().get_char(k) == '/' {
                    assert(name@.contains('/')) by {
                        assert(name@[k as int] == '/');
                    }
                    proof {
                        assert forall|n: Seq<char>| is_component(n) && full@ == joined(base@, n)
                            implies false by {
                            assert(base@.len() == plen && full@.len() == dlen);
                            assert(joined(base@, n).subrange(plen + 1, dlen as int) =~= n);
                            assert(name@ == full@.subrange(plen + 1, dlen as int));
                            assert(n[k as int] == name@[k as int]);
                        }
                    }
                    return None;
                }
                k = k + 1;
            }
            return Some(name);
        }
    }
    proof {
        assert forall|n: Seq<char>| is_component(n) && full@ == joined(base@, n) implies false by {
            assert(full@.subrange(0, plen as int) =~= base@);
            assert(full@[plen as int] == '/');
        }
    }
    None
}

/// Whether a name is among the names.
fn listed(names: &Vec<String>, name: &String) -> (r: bool)
    ensures
        r == exists|i: int| 0 <= i < names.len() && (#[trigger] names@[i])@ == name@,
{
    let mut m: usize = 0;
    while m < names.len()
        invariant
            m <= names.len(),
            forall|i: int| 0 <= i < m ==> (#[trigger] names@[i])@ != name@,
        decreases names.len() - m,
    {
        if names[m] == *name {
            return true;
        }
        m = m + 1;
    }
    false
}

impl Storage for MemoryStorage {
    closed spec fn files(&self) -> Map<Seq<char>, Seq<u8>> {
        replayed(self.entries@)
    }

    closed spec fn dirs(&self) -> Set<Seq<char>> {
        Set::new(|d: Seq<char>| exists|i: int| 0 <= i < self.dir_list@.len() && self.dir_list@[i]@ == d)
    }

    fn is_dir(&self, path: &String) -> (r: bool) {
        let mut k: usize = 0;
        while k < self.dir_list.len()
            invariant
                k <= self.dir_list@.len(),
                forall|j: int| 0 <= j < k ==> (#[trigger] self.dir_list@[j])@ != path@,
            decreases self.dir_list.len() - k,
        {
            if self.dir_list[k] == *path {
                return true;
            }
            k = k + 1;
        }
        false
    }

    fn is_file(&self, path: &String) -> (r: bool) {
        match self.latest(path) {
            Some(i) => {
                proof {
                    lemma_latest_decides(self.entries@, path@, i as int);
                }
                self.entries[i].1.is_some()
            },
            None => {
                proof {
                    lemma_never_written(self.entries@, path@);
                }
                false
            },
        }
    }

    fn read(&self, path: &String) -> (r: Result<Vec<u8>, String>) {
        match self.latest(path) {
            Some(i) => {
                proof {
                    lemma_latest_decides(self.entries@, path@, i as int);
                }
                match &self.entries[i].1 {
                    Some(b) => Ok(b.clone()),
                    None => Err(String::from_str("no such file")),
                }
            },
            None => {
                proof {
                    lemma_never_written(self.entries@, path@);
                }
                Err(String::from_str("no such file"))
            },
        }
    }

    fn write(&mut self, dir: &String, name: &String, bytes: &Vec<u8>) -> (r: Result<(), String>) {
        self.create_dir(dir);
        let path = crate::paths::join(dir, name.as_str());
        let ghost before = self.entries@;
        self.entries.push((path, Some(bytes.clone())));
        assert(self.entries@.drop_last() == before);
        Ok(())
    }

    fn remove(&mut self, path: &String) -> (r: Result<(), String>) {
        let ghost before = self.entries@;
        self.entries.push((path.clone(), None));
        assert(self.entries@.drop_last() == before);
        Ok(())
    }

    fn file_names(&self, dir: &String) -> (r: Vec<String>) {
        let mut names: Vec<String> = Vec::new();
        let mut k: usize = 0;
        while k < self.entries.len()
            invariant
                k <= self.entries@.len(),
                forall|i: int| 0 <= i < names.len() ==> self.files().contains_key(
                    joined(dir@, #[trigger] names@[i]@),
                ) && is_component(names@[i]@),
                forall|i: int, j: int| 0 <= i < j < names.len() ==> names@[i]@ != names@[j]@,
                forall|e: int, n: Seq<char>|
                    #![trigger self.entries@[e], joined(dir@, n)]
                    0 <= e < k && is_component(n) && self.entries@[e].0@ == joined(dir@, n)
                        && self.files().contains_key(joined(dir@, n)) ==> exists|i: int|
                        0 <= i < names.len() && names@[i]@ == n,
            decreases self.entries.len() - k,
        {
            let path = &self.entries[k].0;
            let ghost before = names@;
            if let Some(name) = child_name(dir, path) {
                if self.is_file(path) && !listed(&names, &name) {
                    names.push(name);
                    assert(names@[names.len() - 1] == name);
                }
            }
            assert forall|e: int, n: Seq<char>|
                    #![trigger self.entries@[e], joined(dir@, n)]
                0 <= e < k + 1 && is_component(n) && self.entries@[e].0@ == joined(dir@, n)
                    && self.files().contains_key(joined(dir@, n)) implies exists|i: int|
                    0 <= i < names.len() && names@[i]@ == n by {
                if e < k {
                    let i = choose|i: int| 0 <= i < before.len() && before[i]@ == n;
                    assert(names@[i] == before[i]);
                }
            }
            k = k + 1;
        }
        proof {
            assert forall|n: Seq<char>| is_component(n) && #[trigger] self.files().contains_key(
                joined(dir@, n),
            ) implies exists|i: int| 0 <= i < names.len() && names@[i]@ == n by {
                if forall|j: int| 0 <= j < self.entries@.len() ==> (#[trigger] self.entries@[j]).0@
                    != joined(dir@, n) {
                    lemma_never_written(self.entries@, joined(dir@, n));
                }
            }
        }
        names
    }

    fn sub_dirs(&self, path: &String) -> (r: Vec<String>) {
        let mut names: Vec<String> = Vec::new();
        let mut k: usize = 0;
        while k < self.dir_list.len()
            invariant
                k <= self.dir_list@.len(),
                forall|i: int| 0 <= i < names.len() ==> self.dirs().contains(
                    joined(path@, #[trigger] names@[i]@),
                ) && is_component(names@[i]@),
                forall|i: int, j: int| 0 <= i < j < names.len() ==> names@[i]@ != names@[j]@,
                forall|e: int, n: Seq<char>|
                    #![trigger self.dir_list@[e], joined(path@, n)]
                    0 <= e < k && is_component(n) && self.dir_list@[e]@ == joined(path@, n)
                        ==> exists|i: int| 0 <= i < names.len() && names@[i]@ == n,
            decreases self.dir_list.len() - k,
        {
            let ghost before = names@;
            if let Some(name) = child_name(path, &self.dir_list[k]) {
                assert(self.dirs().contains(self.dir_list@[k as int]@));
                if !listed(&names, &name) {
                    names.push(name);
                    assert(names@[names.len() - 1] == name);
                }
            }
            assert forall|e: int, n: Seq<char>|
                    #![trigger self.dir_list@[e], joined(path@, n)]
                0 <= e < k + 1 && is_component(n) && self.dir_list@[e]@ == joined(path@, n)
                    implies exists|i: int| 0 <= i < names.len() && names@[i]@ == n by {
                if e < k {
                    let i = choose|i: int| 0 <= i < before.len() && before[i]@ == n;
                    assert(names@[i] == before[i]);
                }
            }
            k = k + 1;
        }
        proof {
            assert forall|n: Seq<char>| is_component(n) && #[trigger] self.dirs().contains(
                joined(path@, n),
            ) implies exists|i: int| 0 <= i < names.len() && names@[i]@ == n by {
                let e = choose|e: int| 0 <= e < self.dir_list@.len() && self.dir_list@[e]@ == joined(path@, n);
                assert(self.dir_list@[e]@ == joined(path@, n));
            }
        }
        names
    }
}

} // verus!

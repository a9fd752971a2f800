//! The object database: compressed streams, each under the path that its
//! hash maps to, written once and never changed.

use crate::error::ObjectError;
use vstd::prelude::*;
use vstd::string::*;

verus! {

/// The path of the object with hash `hash`: the root of the database, a
/// directory named by the first two characters of the hash, and a file named
/// by the rest of it.
pub open spec fn object_path(hash: Seq<char>) -> Seq<char> {
    ".git/objects/"@ + hash.take(2) + "/"@ + hash.skip(2)
}

/// Derives the path of an object from its hash.
pub fn path_for(hash: &str) -> (path: String)
    requires
        hash@.len() >= 2,
    ensures
        path@ == object_path(hash@),
{
    let len = hash.unicode_len();
    let mut path = ".git/objects/".to_owned();
    path.append(hash.substring_char(0, 2));
    path.append("/");
    path.append(hash.substring_char(2, len));
    path
}

/// The objects of a database, as far as they are held in memory: each path
/// at most once, with the compressed stream stored under it.
pub struct ObjectStore {
    paths: Vec<String>,
    streams: Vec<Vec<u8>>,
}

/// `i` is a slot of `paths` that holds `path`.
spec fn holds_at(paths: Seq<String>, path: Seq<char>, i: int) -> bool {
    0 <= i < paths.len() && paths[i]@ == path
}

impl View for ObjectStore {
    type V = Map<Seq<char>, Seq<u8>>;

    /// The stream under each path that the store holds.
    closed spec fn view(&self) -> Map<Seq<char>, Seq<u8>> {
        Map::new(
            |path: Seq<char>| exists|i: int| holds_at(self.paths@, path, i),
            |path: Seq<char>| self.streams@[choose|i: int| holds_at(self.paths@, path, i)]@,
        )
    }
}

impl ObjectStore {
    /// Every path has its stream, and no path occurs twice.
    pub closed spec fn wf(&self) -> bool {
        &&& self.paths@.len() == self.streams@.len()
        &&& forall|i: int, j: int|
            0 <= i < j < self.paths@.len() ==> self.paths@[i]@ != self.paths@[j]@
    }

    /// A store that holds nothing.
    pub fn new() -> (store: ObjectStore)
        ensures
            store.wf(),
            store@ == Map::<Seq<char>, Seq<u8>>::empty(),
    {
        let store = ObjectStore { paths: Vec::new(), streams: Vec::new() };
        assert(store@ =~= Map::<Seq<char>, Seq<u8>>::empty());
        store
    }

    /// The slot that holds `path`, if one does.
    fn slot(&self, path: &String) -> (r: Option<usize>)
        requires
            self.wf(),
        ensures
            match r {
                Some(i) => holds_at(self.paths@, path@, i as int) && i < self.streams@.len()
                    && self@.contains_key(path@) && self@[path@] == self.streams@[i as int]@,
                None => !self@.contains_key(path@),
            },
    {
        let mut i: usize = 0;
        while i < self.paths.len()
            invariant
                self.wf(),
                0 <= i <= self.paths@.len(),
                forall|j: int| 0 <= j < i ==> !holds_at(self.paths@, path@, j),
            decreases self.paths@.len() - i,
        {
            if self.paths[i] == *path {
                proof {
                    assert(holds_at(self.paths@, path@, i as int));
                    let k = choose|k: int| holds_at(self.paths@, path@, k);
                    assert(k == i);
                }
                return Some(i);
            }
            i += 1;
        }
        None
    }

    /// Whether the store holds an object at `path`.
    pub fn contains(&self, path: &str) -> (found: bool)
        requires
            self.wf(),
        ensures
            found == self@.contains_key(path@),
    {
        let key = path.to_owned();
        self.slot(&key).is_some()
    }

    /// The stream stored at `path`.
    pub fn get(&self, path: &str) -> (r: Option<&Vec<u8>>)
        requires
            self.wf(),
        ensures
            match r {
                Some(stream) => self@.contains_key(path@) && self@[path@] == stream@,
                None => !self@.contains_key(path@),
            },
    {
        let key = path.to_owned();
        match self.slot(&key) {
            Some(i) => Some(&self.streams[i]),
            None => None,
        }
    }

    /// Stores `stream` at `path`, unless the store holds an object there
    /// already: a stored object is never written over. Says whether the
    /// stream was stored.
    pub fn insert(&mut self, path: String, stream: Vec<u8>) -> (stored: bool)
        requires
            old(self).wf(),
        ensures
            final(self).wf(),
            stored == !old(self)@.contains_key(path@),
            stored ==> final(self)@ == old(self)@.insert(path@, stream@),
            !stored ==> final(self)@ == old(self)@,
    {
        if self.slot(&path).is_some() {
            return false;
        }
        let ghost before = *self;
        self.paths.push(path);
        self.streams.push(stream);
        proof {
            let n = before.paths@.len() as int;
            assert forall|i: int, j: int| 0 <= i < j < self.paths@.len() implies self.paths@[i]@
                != self.paths@[j]@ by {
                if j == n {
                    assert(!holds_at(before.paths@, path@, i));
                }
            }
            assert forall|p: Seq<char>| #[trigger] self@.contains_key(p) <==> before@.insert(
                path@,
                stream@,
            ).contains_key(p) by {
                if self@.contains_key(p) {
                    let i = choose|i: int| holds_at(self.paths@, p, i);
                    if i < n {
                        assert(holds_at(before.paths@, p, i));
                    }
                }
                if before@.contains_key(p) {
                    let i = choose|i: int| holds_at(before.paths@, p, i);
                    assert(holds_at(self.paths@, p, i));
                }
                if p == path@ {
                    assert(holds_at(self.paths@, p, n));
                }
            }
            assert forall|p: Seq<char>| self@.contains_key(p) implies #[trigger] self@[p]
                == before@.insert(path@, stream@)[p] by {
                let i = choose|i: int| holds_at(self.paths@, p, i);
                if p == path@ {
                    assert(holds_at(self.paths@, p, n));
                    assert(i == n) by {
                        if i < n {
                            assert(holds_at(before.paths@, p, i));
                        }
                    }
                } else {
                    assert(i < n);
                    assert(holds_at(before.paths@, p, i));
                    let k = choose|k: int| holds_at(before.paths@, p, k);
                    assert(k == i);
                }
            }
            assert(self@ =~= before@.insert(path@, stream@));
        }
        true
    }
}

/// Finds the object with hash `hash` in `store`: its path, where the store
/// holds an object there, and `NotFound` where it does not.
pub fn locate(store: &ObjectStore, hash: &str) -> (r: Result<String, ObjectError>)
    requires
        store.wf(),
        hash@.len() >= 2,
    ensures
        match r {
            Ok(path) => path@ == object_path(hash@) && store@.contains_key(path@),
            Err(e) => e == ObjectError::NotFound && !store@.contains_key(object_path(hash@)),
        },
{
    let path = path_for(hash);
    if store.contains(path.as_str()) {
        Ok(path)
    } else {
        Err(ObjectError::NotFound)
    }
}

} // verus!

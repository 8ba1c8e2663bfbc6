//! Where data is kept.

use crate::text::text_map::TextMap;
use vstd::prelude::*;
use vstd::string::*;

verus! {

/// Why data could not be saved, loaded or deleted.
#[derive(Debug)]
pub struct StorageFault {
    /// What has gone wrong, for a reader.
    pub reason: String,
}

/// A place that keeps data under keys. It is up to the place whether it can do
/// what it is asked; where it says that it has, it has.
pub trait StorageBackend {
    /// The data under each key.
    spec fn held(&self) -> Map<Seq<char>, Seq<u8>>;

    /// Whether the place is in order.
    spec fn is_sound(&self) -> bool;

    /// Puts data under a key.
    fn save(&mut self, key: &str, data: &Vec<u8>) -> (r: Result<(), StorageFault>)
        requires
            old(self).is_sound(),
        ensures
            final(self).is_sound(),
            r is Ok ==> final(self).held() == old(self).held().insert(key@, data@),
    ;

    /// The data under a key, if there is any.
    fn load(&self, key: &str) -> (r: Result<Option<Vec<u8>>, StorageFault>)
        requires
            self.is_sound(),
        ensures
            match r {
                Ok(Some(data)) => self.held().contains_key(key@) && data@ == self.held()[key@],
                Ok(None) => !self.held().contains_key(key@),
                Err(_) => true,
            },
    ;

    /// Takes away the data under a key, if there is any.
    fn delete(&mut self, key: &str) -> (r: Result<(), StorageFault>)
        requires
            old(self).is_sound(),
        ensures
            final(self).is_sound(),
            r is Ok ==> final(self).held() == old(self).held().remove(key@),
    ;
}

/// A place that keeps data as long as the program runs.
#[derive(Debug)]
pub struct VolatileStorage {
    entries: TextMap<Vec<u8>>,
}

/// The bytes under each key.
pub open spec fn shown_bytes(m: Map<Seq<char>, Vec<u8>>) -> Map<Seq<char>, Seq<u8>> {
    Map::new(|k: Seq<char>| m.contains_key(k), |k: Seq<char>| m[k]@)
}

impl VolatileStorage {
    /// A place without data.
    pub fn new() -> (r: Self)
        ensures
            r.is_sound(),
            r.held() == Map::<Seq<char>, Seq<u8>>::empty(),
    {
        let r = VolatileStorage { entries: TextMap::new() };
        assert(r.held() =~= Map::empty());
        r
    }
}

impl StorageBackend for VolatileStorage {
    closed spec fn held(&self) -> Map<Seq<char>, Seq<u8>> {
        shown_bytes(self.entries@)
    }

    closed spec fn is_sound(&self) -> bool {
        self.entries.wf()
    }

    fn save(&mut self, key: &str, data: &Vec<u8>) -> (r: Result<(), StorageFault>)
        ensures
            r is Ok,
    {
        let ghost before = self.held();
        let copy = copied(data);
        self.entries.insert(String::from_str(key), copy);
        assert(self.held() =~= before.insert(key@, data@));
        Ok(())
    }

    fn load(&self, key: &str) -> (r: Result<Option<Vec<u8>>, StorageFault>)
        ensures
            r is Ok,
    {
        match self.entries.get(key) {
            Some(data) => Ok(Some(copied(data))),
            None => Ok(None),
        }
    }

    fn delete(&mut self, key: &str) -> (r: Result<(), StorageFault>)
        ensures
            r is Ok,
    {
        let ghost before = self.held();
        self.entries.remove(key);
        assert(self.held() =~= before.remove(key@));
        Ok(())
    }
}

/// The bytes once more.
fn copied(data: &Vec<u8>) -> (r: Vec<u8>)
    ensures
        r@ == data@,
{
    let mut out: Vec<u8> = Vec::new();
    let mut i: usize = 0;
    while i < data.len()
        invariant
            i <= data@.len(),
            out@ == data@.take(i as int),
        decreases data@.len() - i,
    {
        out.push(data[i]);
        assert(data@.take(i + 1) =~= data@.take(i as int).push(data@[i as int]));
        i = i + 1;
    }
    assert(data@.take(data@.len() as int) =~= data@);
    out
}

} // verus!

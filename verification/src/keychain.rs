//! Where secrets of the command line are kept between runs.

use crate::error::Error;
use crate::text::bytes_of;
use vstd::hash_map::StringHashMap;
use vstd::prelude::*;

verus! {

/// A store of named secrets, such as the keychain of the operating system.
pub trait Keychain {
    /// The secrets that the keychain holds, by name.
    spec fn entries(&self) -> Map<Seq<char>, Seq<u8>>;

    /// Whether the keychain carries out every request. One that a system provides may not.
    spec fn reliable(&self) -> bool;

    /// Whether a request to store a secret, made of the keychain as it is, can be answered with
    /// `answer` and leave the keychain as `after`.
    spec fn set_gives(
        &self,
        name: Seq<char>,
        value: Seq<u8>,
        after: &Self,
        answer: Result<(), Error>,
    ) -> bool;

    /// Whether a request for a secret, made of the keychain as it is, can be answered with
    /// `answer`.
    spec fn get_gives(&self, name: Seq<char>, answer: Result<Option<Vec<u8>>, Error>) -> bool;

    /// Whether a request to remove a secret, made of the keychain as it is, can be answered with
    /// `answer` and leave the keychain as `after`.
    spec fn delete_gives(&self, name: Seq<char>, after: &Self, answer: Result<(), Error>) -> bool;

    /// Stores a secret under a name, in place of the one that was there.
    fn set(&mut self, name: &str, value: &[u8]) -> (r: Result<(), Error>)
        ensures
            old(self).set_gives(name@, value@, final(self), r),
            final(self).reliable() == old(self).reliable(),
            old(self).reliable() ==> r is Ok,
            r is Ok ==> final(self).entries() == old(self).entries().insert(name@, value@),
    ;

    /// The secret under a name, if there is one.
    fn get(&self, name: &str) -> (r: Result<Option<Vec<u8>>, Error>)
        ensures
            self.get_gives(name@, r),
            self.reliable() ==> r is Ok,
            match r {
                Ok(Some(value)) => self.entries().contains_key(name@) && self.entries()[name@]
                    == value@,
                Ok(None) => !self.entries().contains_key(name@),
                Err(_) => true,
            },
    ;

    /// Removes the secret under a name, if there is one.
    fn delete(&mut self, name: &str) -> (r: Result<(), Error>)
        ensures
            old(self).delete_gives(name@, final(self), r),
            final(self).reliable() == old(self).reliable(),
            old(self).reliable() ==> r is Ok,
            r is Ok ==> final(self).entries() == old(self).entries().remove(name@),
    ;
}

/// A keychain that lasts as long as the process.
pub struct MemoryKeychain {
    secrets: StringHashMap<Vec<u8>>,
}

impl MemoryKeychain {
    /// What the keychain holds.
    pub closed spec fn held(&self) -> Map<Seq<char>, Seq<u8>> {
        self.secrets@.map_values(|value: Vec<u8>| value@)
    }
}

impl Default for MemoryKeychain {
    fn default() -> (r: Self)
        ensures
            r.held() == Map::<Seq<char>, Seq<u8>>::empty(),
    {
        let r = MemoryKeychain { secrets: StringHashMap::new() };
        assert(r.held() =~= Map::empty());
        r
    }
}

impl Keychain for MemoryKeychain {
    open spec fn entries(&self) -> Map<Seq<char>, Seq<u8>> {
        self.held()
    }

    open spec fn reliable(&self) -> bool {
        true
    }

    open spec fn set_gives(
        &self,
        name: Seq<char>,
        value: Seq<u8>,
        after: &Self,
        answer: Result<(), Error>,
    ) -> bool {
        answer is Ok && after.held() == self.held().insert(name, value)
    }

    open spec fn get_gives(&self, name: Seq<char>, answer: Result<Option<Vec<u8>>, Error>) -> bool {
        match answer {
            Ok(Some(value)) => self.held().contains_key(name) && self.held()[name] == value@,
            Ok(None) => !self.held().contains_key(name),
            Err(_) => false,
        }
    }

    open spec fn delete_gives(
        &self,
        name: Seq<char>,
        after: &Self,
        answer: Result<(), Error>,
    ) -> bool {
        answer is Ok && after.held() == self.held().remove(name)
    }

    fn set(&mut self, name: &str, value: &[u8]) -> (r: Result<(), Error>) {
        let ghost before = self.held();
        let copy = bytes_of(value);
        self.secrets.insert(name.to_owned(), copy);
        assert(self.held() =~= before.insert(name@, value@));
        Ok(())
    }

    fn get(&self, name: &str) -> (r: Result<Option<Vec<u8>>, Error>) {
        match self.secrets.get(name) {
            Some(value) => Ok(Some(bytes_of(value.as_slice()))),
            None => Ok(None),
        }
    }

    fn delete(&mut self, name: &str) -> (r: Result<(), Error>) {
        let ghost before = self.held();
        self.secrets.remove(name);
        assert(self.held() =~= before.remove(name@));
        Ok(())
    }
}

} // verus!

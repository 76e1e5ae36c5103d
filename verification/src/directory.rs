use vstd::prelude::*;
use vstd::string::StringExecFns;

use vstd::utf8::is_ascii_chars;

use crate::bytes::{ascii_of, jtext_wf};
use crate::errors::AuthError;
use crate::models::UserRole;

verus! {

/// A registered identity: generated id, display name, unique handle, stored
/// credential digest, role, and creation time.
#[derive(Debug)]
pub struct Identity {
    pub id: String,
    pub username: String,
    pub email: String,
    pub digest: String,
    pub role: UserRole,
    pub created_at: i64,
}

/// An in-memory identity directory: the record store the session issuer
/// consults, with unique handles.
#[derive(Debug)]
pub struct Directory {
    pub records: Vec<Identity>,
}

impl Directory {
    /// Handles are unique and every stored id can stand in a token.
    pub open spec fn wf(&self) -> bool {
        &&& forall|i: int, j: int|
            0 <= i < j < self.records@.len() ==> (#[trigger] self.records@[i]).email@
                != (#[trigger] self.records@[j]).email@
        &&& forall|i: int|
            0 <= i < self.records@.len() ==> is_ascii_chars((#[trigger] self.records@[i]).id@)
                && jtext_wf(ascii_of(self.records@[i].id@))
    }

    /// Whether some record carries the handle.
    pub open spec fn has_handle(&self, h: Seq<char>) -> bool {
        exists|i: int|
            0 <= i < self.records@.len() && (#[trigger] self.records@[i]).email@ == h
    }

    /// An empty directory.
    pub fn new() -> (r: Directory)
        ensures
            r.wf(),
            r.records@.len() == 0,
    {
        Directory { records: Vec::new() }
    }

    /// How many identities are stored.
    pub fn len(&self) -> (n: usize)
        ensures
            n == self.records@.len(),
    {
        self.records.len()
    }

    /// The index of the record with the given handle, if any.
    pub fn find_index(&self, handle: &str) -> (r: Option<usize>)
        ensures
            match r {
                Some(i) => i < self.records@.len() && self.records@[i as int].email@ == handle@,
                None => !self.has_handle(handle@),
            },
    {
        let h = String::from_str(handle);
        let mut i: usize = 0;
        while i < self.records.len()
            invariant
                i <= self.records@.len(),
                h@ == handle@,
                forall|j: int| 0 <= j < i ==> (#[trigger] self.records@[j]).email@ != handle@,
            decreases self.records@.len() - i,
        {
            if self.records[i].email == h {
                return Some(i);
            }
            i += 1;
        }
        None
    }

    /// Insert a new identity; a handle already present is refused and the
    /// directory is unchanged.
    pub fn insert(&mut self, rec: Identity) -> (r: Result<(), AuthError>)
        requires
            old(self).wf(),
            is_ascii_chars(rec.id@),
            jtext_wf(ascii_of(rec.id@)),
        ensures
            final(self).wf(),
            match r {
                Ok(()) => !old(self).has_handle(rec.email@) && final(self).records@ == old(
                    self,
                ).records@.push(rec),
                Err(e) => e == AuthError::DuplicateIdentity && old(self).has_handle(rec.email@)
                    && final(self).records@ == old(self).records@,
            },
    {
        match self.find_index(rec.email.as_str()) {
            Some(_) => Err(AuthError::DuplicateIdentity),
            None => {
                let ghost old_records = self.records@;
                let ghost newrec = rec;
                self.records.push(rec);
                proof {
                    assert forall|i: int, j: int|
                        0 <= i < j < self.records@.len() implies (#[trigger] self.records@[
                        i]).email@ != (#[trigger] self.records@[j]).email@ by {
                        if j < old_records.len() {
                            assert(self.records@[i] == old_records[i]);
                            assert(self.records@[j] == old_records[j]);
                        } else {
                            assert(self.records@[j] == newrec);
                            assert(self.records@[i] == old_records[i]);
                            assert(old_records[i].email@ != newrec.email@);
                        }
                    }
                    assert forall|i: int|
                        0 <= i < self.records@.len() implies jtext_wf(
                        ascii_of((#[trigger] self.records@[i]).id@),
                    ) by {
                        if i < old_records.len() {
                            assert(self.records@[i] == old_records[i]);
                        } else {
                            assert(self.records@[i] == newrec);
                        }
                    }
                }
                Ok(())
            },
        }
    }
}

} // verus!

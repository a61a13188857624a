//! [`Backend`](crate::Backend) implementations.
//!
//! Both backends work on an in-memory image of the persisted state: the
//! caller that owns the storage location reads it into a `Vec<Encrypted>`
//! before constructing the backend and writes the backend's records back
//! after a mutation.  Everything between those two points — lookup, in-place
//! replacement, removal — is specified and verified here.
use vstd::prelude::*;

use crate::records::{find_first, first_index, lemma_first_index, lemma_is_first_index,
    lemma_remove_all_snoc, remove_all, upsert};
use crate::{Backend, Encrypted, EncryptedView, Error};

verus! {

/// The view of a record vector: each record's mathematical content, in
/// order.
pub open spec fn recs_view(v: Seq<Encrypted>) -> Seq<EncryptedView> {
    v.map_values(|x: Encrypted| x@)
}

/// The index of the first record of `v` bearing `name`, scanned from the
/// front.
fn find_index(v: &Vec<Encrypted>, name: &String) -> (r: Option<usize>)
    ensures
        match r {
            Some(i) => i < v@.len() && first_index(recs_view(v@), name@) == i,
            None => first_index(recs_view(v@), name@) == -1,
        },
{
    let ghost s = recs_view(v@);
    let n = v.len();
    let mut i: usize = 0;
    while i < n
        invariant
            n == v@.len(),
            s == recs_view(v@),
            0 <= i <= n,
            forall|j: int| 0 <= j < i ==> #[trigger] s[j].name != name@,
        decreases n - i,
    {
        if v[i].name == *name {
            proof {
                assert(s[i as int].name == name@);
                lemma_is_first_index(s, name@, i as int);
            }
            return Some(i);
        }
        i += 1;
    }
    proof {
        lemma_first_index(s, name@);
        if first_index(s, name@) >= 0 {
            assert(s[first_index(s, name@)].name != name@);
        }
    }
    None
}

/// Store secrets as a single ordered list of records, the image of one
/// structured file.
///
/// The persisted form is a file holding the whole list; every mutation
/// rewrites the file in full.  Replacing keeps the record's position in the
/// list; removing an absent name succeeds as a no-op.
pub struct YAML {
    records: Vec<Encrypted>,
}

impl YAML {
    /// Wrap the records read from the list file; an absent file is the empty
    /// list.
    pub fn new(records: Vec<Encrypted>) -> (r: Self)
        ensures
            r.records() == recs_view(records@),
    {
        YAML { records }
    }
}

impl Backend for YAML {
    closed spec fn records(&self) -> Seq<EncryptedView> {
        recs_view(self.records@)
    }

    fn store(&mut self, encrypted: Encrypted) -> (r: Result<(), Error>)
        ensures
            r is Ok,
            r is Ok ==> final(self).records() == upsert(old(self).records(), encrypted@),
            r is Err ==> final(self).records() == old(self).records(),
    {
        let ghost s = recs_view(self.records@);
        match find_index(&self.records, &encrypted.name) {
            Some(i) => {
                let slot = vstd::std_specs::vec::vec_index_mut(&mut self.records, i);
                *slot = encrypted;
                proof {
                    assert(recs_view(self.records@) =~= s.update(i as int, encrypted@));
                }
            },
            None => {
                self.records.push(encrypted);
                proof {
                    assert(recs_view(self.records@) =~= s.push(encrypted@));
                }
            },
        }
        Ok(())
    }

    fn load(&self, name: &String) -> (r: Result<Encrypted, Error>)
        ensures
            match r {
                Ok(e) => find_first(self.records(), name@) == Some(e@),
                Err(err) => err == Error::NotFound && find_first(self.records(), name@) is None,
            },
    {
        match find_index(&self.records, name) {
            Some(i) => Ok(self.records[i].clone()),
            None => Err(Error::NotFound),
        }
    }

    fn remove(&mut self, name: &String) -> (r: Result<(), Error>)
        ensures
            r is Ok,
            r is Ok ==> final(self).records() == remove_all(old(self).records(), name@),
            r is Err ==> final(self).records() == old(self).records() && r == Err::<(), Error>(
                Error::NotFound,
            ) && !crate::records::contains_name(old(self).records(), name@),
    {
        self.records = remove_records(&self.records, name);
        Ok(())
    }

    fn list(&self) -> (r: Result<Vec<Encrypted>, Error>)
        ensures
            match r {
                Ok(v) => recs_view(v@) == self.records(),
                Err(_) => false,
            },
    {
        Ok(clone_records(&self.records))
    }
}

/// Store the secrets as one subdirectory per secret name under a root
/// directory, each holding a `secret` and a `salt` file.
///
/// The image the backend works on is the directory listing, one record per
/// subdirectory.  Replacing a name overwrites that name's two files; removing
/// an absent name fails with [`Error::NotFound`], as deleting a missing
/// directory does.
pub struct Folder {
    path: String,
    entries: Vec<Encrypted>,
}

impl Folder {
    /// The root directory's path.
    pub closed spec fn spec_path(&self) -> Seq<char> {
        self.path@
    }

    /// Wrap the entries read from the directory rooted at `path`; an absent
    /// directory is the empty listing.
    pub fn new(path: String, entries: Vec<Encrypted>) -> (r: Self)
        ensures
            r.records() == recs_view(entries@),
            r.spec_path() == path@,
    {
        Folder { path, entries }
    }

    /// The path of the name's `salt` file.
    pub fn salt_path(&self, name: &String) -> (r: String)
        ensures
            r@ == self.spec_path() + "/"@ + name@ + "/salt"@,
    {
        let mut p = self.path.clone();
        p.append("/");
        p.append(name.as_str());
        p.append("/salt");
        p
    }

    /// The path of the name's `secret` file.
    pub fn secret_path(&self, name: &String) -> (r: String)
        ensures
            r@ == self.spec_path() + "/"@ + name@ + "/secret"@,
    {
        let mut p = self.path.clone();
        p.append("/");
        p.append(name.as_str());
        p.append("/secret");
        p
    }
}

impl Backend for Folder {
    closed spec fn records(&self) -> Seq<EncryptedView> {
        recs_view(self.entries@)
    }

    fn store(&mut self, encrypted: Encrypted) -> (r: Result<(), Error>)
        ensures
            r is Ok,
            r is Ok ==> final(self).records() == upsert(old(self).records(), encrypted@),
            r is Err ==> final(self).records() == old(self).records(),
    {
        let ghost s = recs_view(self.entries@);
        match find_index(&self.entries, &encrypted.name) {
            Some(i) => {
                let slot = vstd::std_specs::vec::vec_index_mut(&mut self.entries, i);
                *slot = encrypted;
                proof {
                    assert(recs_view(self.entries@) =~= s.update(i as int, encrypted@));
                }
            },
            None => {
                self.entries.push(encrypted);
                proof {
                    assert(recs_view(self.entries@) =~= s.push(encrypted@));
                }
            },
        }
        Ok(())
    }

    fn load(&self, name: &String) -> (r: Result<Encrypted, Error>)
        ensures
            match r {
                Ok(e) => find_first(self.records(), name@) == Some(e@),
                Err(err) => err == Error::NotFound && find_first(self.records(), name@) is None,
            },
    {
        match find_index(&self.entries, name) {
            Some(i) => Ok(self.entries[i].clone()),
            None => Err(Error::NotFound),
        }
    }

    fn remove(&mut self, name: &String) -> (r: Result<(), Error>)
        ensures
            crate::records::contains_name(old(self).records(), name@) <==> r is Ok,
            r is Ok ==> final(self).records() == remove_all(old(self).records(), name@),
            r is Err ==> final(self).records() == old(self).records() && r == Err::<(), Error>(
                Error::NotFound,
            ) && !crate::records::contains_name(old(self).records(), name@),
    {
        let ghost s0 = recs_view(self.entries@);
        match find_index(&self.entries, name) {
            Some(_) => {
                proof {
                    lemma_first_index(s0, name@);
                }
                self.entries = remove_records(&self.entries, name);
                Ok(())
            },
            None => {
                proof {
                    lemma_first_index(self.records(), name@);
                }
                Err(Error::NotFound)
            },
        }
    }

    fn list(&self) -> (r: Result<Vec<Encrypted>, Error>)
        ensures
            match r {
                Ok(v) => recs_view(v@) == self.records(),
                Err(_) => false,
            },
    {
        Ok(clone_records(&self.entries))
    }
}

/// Whichever backend the storage location's shape selected: the list-file
/// one or the directory one.
pub enum AnyBackend {
    Yaml(YAML),
    Folder(Folder),
}

impl AnyBackend {
    /// A list-file backend over the given records.
    pub fn new_yaml(records: Vec<Encrypted>) -> (r: Self)
        ensures
            r.records() == recs_view(records@),
            r is Yaml,
    {
        AnyBackend::Yaml(YAML::new(records))
    }

    /// A directory backend over the given entries, rooted at `path`.
    pub fn new_folder(path: String, entries: Vec<Encrypted>) -> (r: Self)
        ensures
            r.records() == recs_view(entries@),
            r is Folder,
    {
        AnyBackend::Folder(Folder::new(path, entries))
    }
}

impl Backend for AnyBackend {
    closed spec fn records(&self) -> Seq<EncryptedView> {
        match self {
            AnyBackend::Yaml(b) => b.records(),
            AnyBackend::Folder(b) => b.records(),
        }
    }

    fn store(&mut self, encrypted: Encrypted) -> (r: Result<(), Error>)
        ensures
            r is Ok,
            r is Ok ==> final(self).records() == upsert(old(self).records(), encrypted@),
            r is Err ==> final(self).records() == old(self).records(),
    {
        match self {
            AnyBackend::Yaml(b) => b.store(encrypted),
            AnyBackend::Folder(b) => b.store(encrypted),
        }
    }

    fn load(&self, name: &String) -> (r: Result<Encrypted, Error>)
        ensures
            match r {
                Ok(e) => find_first(self.records(), name@) == Some(e@),
                Err(err) => err == Error::NotFound && find_first(self.records(), name@) is None,
            },
    {
        match self {
            AnyBackend::Yaml(b) => b.load(name),
            AnyBackend::Folder(b) => b.load(name),
        }
    }

    fn remove(&mut self, name: &String) -> (r: Result<(), Error>)
        ensures
            (*old(self)) is Yaml ==> r is Ok,
            (*old(self)) is Folder ==> (crate::records::contains_name(old(self).records(), name@)
                <==> r is Ok),
            r is Ok ==> final(self).records() == remove_all(old(self).records(), name@),
            r is Err ==> final(self).records() == old(self).records() && r == Err::<(), Error>(
                Error::NotFound,
            ) && !crate::records::contains_name(old(self).records(), name@),
    {
        match self {
            AnyBackend::Yaml(b) => b.remove(name),
            AnyBackend::Folder(b) => b.remove(name),
        }
    }

    fn list(&self) -> (r: Result<Vec<Encrypted>, Error>)
        ensures
            match r {
                Ok(v) => recs_view(v@) == self.records(),
                Err(_) => false,
            },
    {
        match self {
            AnyBackend::Yaml(b) => b.list(),
            AnyBackend::Folder(b) => b.list(),
        }
    }
}

/// The record vector with every record of the given name dropped, order of
/// the rest kept.
fn remove_records(v: &Vec<Encrypted>, name: &String) -> (r: Vec<Encrypted>)
    ensures
        recs_view(r@) == remove_all(recs_view(v@), name@),
{
    let ghost s = recs_view(v@);
    let n = v.len();
    let mut kept: Vec<Encrypted> = Vec::new();
    let mut i: usize = 0;
    while i < n
        invariant
            n == v@.len(),
            s == recs_view(v@),
            0 <= i <= n,
            recs_view(kept@) == remove_all(s.take(i as int), name@),
        decreases n - i,
    {
        proof {
            assert(s.take(i + 1) =~= s.take(i as int).push(s[i as int]));
            lemma_remove_all_snoc(s.take(i as int), s[i as int], name@);
        }
        if !(v[i].name == *name) {
            let ghost kept0 = recs_view(kept@);
            kept.push(v[i].clone());
            proof {
                assert(recs_view(kept@) =~= kept0.push(s[i as int]));
            }
        }
        i += 1;
    }
    proof {
        assert(s.take(n as int) =~= s);
    }
    kept
}

/// Copy a record vector; the views are unchanged.
fn clone_records(v: &Vec<Encrypted>) -> (r: Vec<Encrypted>)
    ensures
        recs_view(r@) == recs_view(v@),
{
    let n = v.len();
    let mut out: Vec<Encrypted> = Vec::new();
    let mut i: usize = 0;
    while i < n
        invariant
            n == v@.len(),
            0 <= i <= n,
            recs_view(out@) == recs_view(v@).take(i as int),
        decreases n - i,
    {
        let ghost out0 = recs_view(out@);
        out.push(v[i].clone());
        proof {
            assert(recs_view(out@) =~= out0.push(v@[i as int]@));
            assert(recs_view(v@).take(i + 1) =~= recs_view(v@).take(i as int).push(v@[i as int]@));
        }
        i += 1;
    }
    proof {
        assert(recs_view(v@).take(n as int) =~= recs_view(v@));
    }
    out
}

} // verus!

//! The secret-level API of [`Database`]: one backend, one encrypter, and
//! the operations that compose them.
use vstd::prelude::*;

use vstd::string::{StrSliceExecFns, StringExecFns};

use crate::backends::{recs_view, AnyBackend};
use crate::encrypters::{Ring, MAX_PASSWORD_CHARS};
use crate::records::{contains_name, find_first, lemma_contains_upsert, lemma_first_index,
    lemma_upsert_all_snoc, remove_all, upsert, upsert_all};
use crate::{Backend, Database, Encrypted, EncryptedView, Encrypter, Error, Secret, SecretView};

verus! {

/// The index of the last occurrence of `c` in `s`, or -1 if there is none.
pub open spec fn last_index_of_char(s: Seq<char>, c: char) -> int
    decreases s.len(),
{
    if s.len() == 0 {
        -1
    } else if s[s.len() - 1] == c {
        s.len() - 1
    } else {
        last_index_of_char(s.drop_last(), c)
    }
}

/// What `last_index_of_char` returns: -1 exactly when the character is
/// absent, else the greatest index bearing it.
pub proof fn lemma_last_index_of_char(s: Seq<char>, c: char)
    ensures
        last_index_of_char(s, c) >= 0 ==> last_index_of_char(s, c) < s.len() && s[last_index_of_char(
            s,
            c,
        )] == c && (forall|j: int| last_index_of_char(s, c) < j < s.len() ==> s[j] != c),
        last_index_of_char(s, c) < 0 ==> last_index_of_char(s, c) == -1 && (forall|j: int|
            0 <= j < s.len() ==> s[j] != c),
    decreases s.len(),
{
    if s.len() != 0 && s[s.len() - 1] != c {
        lemma_last_index_of_char(s.drop_last(), c);
        let d = s.drop_last();
        let li = last_index_of_char(d, c);
        if li >= 0 {
            assert(s[li] == d[li]);
            assert forall|j: int| li < j < s.len() implies s[j] != c by {
                if j < s.len() - 1 {
                    assert(s[j] == d[j]);
                }
            }
        } else {
            assert forall|j: int| 0 <= j < s.len() implies s[j] != c by {
                if j < s.len() - 1 {
                    assert(s[j] == d[j]);
                }
            }
        }
    }
}

/// The index of the last occurrence of `c`, scanned left to right.
fn find_last_char(s: &str, c: char) -> (r: Option<usize>)
    ensures
        match r {
            Some(i) => i < s@.len() && last_index_of_char(s@, c) == i,
            None => last_index_of_char(s@, c) == -1,
        },
{
    let n = s.unicode_len();
    let mut res: Option<usize> = None;
    let mut i: usize = 0;
    while i < n
        invariant
            n == s@.len(),
            0 <= i <= n,
            match res {
                Some(k) => k < i && s@[k as int] == c && (forall|j: int|
                    k < j < i ==> s@[j] != c),
                None => forall|j: int| 0 <= j < i ==> s@[j] != c,
            },
        decreases n - i,
    {
        if s.get_char(i) == c {
            res = Some(i);
        }
        i += 1;
    }
    proof {
        lemma_last_index_of_char(s@, c);
        let li = last_index_of_char(s@, c);
        match res {
            Some(k) => {
                if li > k as int {
                    assert(s@[li] != c);
                }
                if li < k as int {
                    assert(s@[k as int] != c);
                }
            },
            None => {
                if li >= 0 {
                    assert(s@[li] != c);
                }
            },
        }
    }
    res
}

/// The extension of a storage path: what follows the last `.` of the last
/// path component, provided that dot is not the component's first character;
/// nothing for an extensionless path.
pub open spec fn path_extension(p: Seq<char>) -> Option<Seq<char>> {
    let fname = p.skip(last_index_of_char(p, '/') + 1);
    let d = last_index_of_char(fname, '.');
    if d <= 0 {
        None
    } else {
        Some(fname.skip(d + 1))
    }
}

/// The extension of a storage path, per `path_extension`.
fn extension_of(path: &String) -> (r: Option<String>)
    ensures
        match r {
            Some(e) => path_extension(path@) == Some(e@),
            None => path_extension(path@) is None,
        },
{
    let s = path.as_str();
    let n = s.unicode_len();
    let start = match find_last_char(s, '/') {
        Some(i) => i + 1,
        None => 0,
    };
    let fname = s.substring_char(start, n);
    proof {
        assert(fname@ =~= path@.skip(last_index_of_char(path@, '/') + 1));
    }
    let m = fname.unicode_len();
    match find_last_char(fname, '.') {
        None => None,
        Some(d) => if d == 0 {
            None
        } else {
            let ext = fname.substring_char(d + 1, m);
            proof {
                assert(ext@ =~= fname@.skip(d + 1));
            }
            Some(String::from_str(ext))
        },
    }
}

impl Database<AnyBackend, Ring> {
    /// A database at the given storage location: a path whose extension is
    /// the recognized list-file one selects the [`crate::backends::YAML`]
    /// backend, an extensionless path the [`crate::backends::Folder`]
    /// backend, and any other extension is refused.  `records` is the image
    /// read from that location; for an absent one pass the empty image.
    pub fn from_file(path: String, password: String, records: Vec<Encrypted>) -> (r: Result<
        Self,
        Error,
    >)
        requires
            password@.len() <= MAX_PASSWORD_CHARS,
        ensures
            match r {
                Ok(db) => {
                    &&& db.spec_encrypter().spec_password() == password@
                    &&& db.recs() == recs_view(records@)
                    &&& (path_extension(path@) == Some("yaml"@) ==> db.spec_backend() is Yaml)
                    &&& (path_extension(path@) is None ==> db.spec_backend() is Folder)
                    &&& (path_extension(path@) is Some ==> path_extension(path@) == Some("yaml"@))
                },
                Err(err) => err == Error::InvalidLayout && path_extension(path@) is Some
                    && path_extension(path@) != Some("yaml"@),
            },
    {
        match extension_of(&path) {
            Some(ext) => {
                let yaml = String::from_str("yaml");
                if ext == yaml {
                    Ok(Database::new(AnyBackend::new_yaml(records), Ring::new(password)))
                } else {
                    Err(Error::InvalidLayout)
                }
            },
            None => Ok(
                Database::new(AnyBackend::new_folder(path, records), Ring::new(password)),
            ),
        }
    }
}

impl<B: Backend, E: Encrypter> Database<B, E> {
    /// The backend, as a ghost value.
    pub closed spec fn spec_backend(&self) -> B {
        self.b
    }

    /// The encrypter, as a ghost value.
    pub closed spec fn spec_encrypter(&self) -> E {
        self.e
    }

    /// The encrypted records the backend holds, in storage order.
    pub open spec fn recs(&self) -> Seq<EncryptedView> {
        self.spec_backend().records()
    }

    /// What this database's encrypter makes of a record.
    pub open spec fn decrypt_spec(&self, enc: EncryptedView) -> Result<Seq<char>, Error> {
        self.spec_encrypter().decrypt_spec(enc)
    }

    /// What decrypting a record sequence front to back yields: every
    /// plaintext with its name, or the first record's error.
    pub open spec fn decrypt_all(&self, recs: Seq<EncryptedView>) -> Result<Seq<SecretView>, Error>
        decreases recs.len(),
    {
        if recs.len() == 0 {
            Ok(Seq::empty())
        } else {
            match self.decrypt_spec(recs[0]) {
                Err(e) => Err(e),
                Ok(sec) => match self.decrypt_all(recs.drop_first()) {
                    Err(e) => Err(e),
                    Ok(rest) => Ok(seq![SecretView { name: recs[0].name, secret: sec }] + rest),
                },
            }
        }
    }

    /// Decrypting one more record at the back extends the result, or turns
    /// it into that record's error.
    proof fn lemma_decrypt_all_snoc(&self, s: Seq<EncryptedView>, x: EncryptedView)
        ensures
            self.decrypt_all(s.push(x)) == match self.decrypt_all(s) {
                Err(e) => Err::<Seq<SecretView>, Error>(e),
                Ok(p) => match self.decrypt_spec(x) {
                    Err(e) => Err::<Seq<SecretView>, Error>(e),
                    Ok(sec) => Ok::<Seq<SecretView>, Error>(
                        p.push(SecretView { name: x.name, secret: sec }),
                    ),
                },
            },
        decreases s.len(),
    {
        if s.len() == 0 {
            assert(s.push(x)[0] == x);
            assert(s.push(x).drop_first() =~= s);
            if self.decrypt_spec(x) is Ok {
                let sec = self.decrypt_spec(x)->Ok_0;
                assert(seq![SecretView { name: x.name, secret: sec }] + Seq::<SecretView>::empty()
                    =~= Seq::<SecretView>::empty().push(SecretView { name: x.name, secret: sec }));
            }
        } else {
            assert(s.push(x)[0] == s[0]);
            assert(s.push(x).drop_first() =~= s.drop_first().push(x));
            self.lemma_decrypt_all_snoc(s.drop_first(), x);
            if self.decrypt_spec(s[0]) is Ok && self.decrypt_all(s.drop_first()) is Ok
                && self.decrypt_spec(x) is Ok {
                let v = SecretView {
                    name: s[0].name,
                    secret: self.decrypt_spec(s[0])->Ok_0,
                };
                let rest = self.decrypt_all(s.drop_first())->Ok_0;
                let w = SecretView { name: x.name, secret: self.decrypt_spec(x)->Ok_0 };
                assert(seq![v] + rest.push(w) =~= (seq![v] + rest).push(w));
            }
        }
    }

    /// A failing prefix settles the whole sequence's outcome.
    proof fn lemma_decrypt_all_prefix_err(&self, s: Seq<EncryptedView>, i: int)
        requires
            0 <= i <= s.len(),
            self.decrypt_all(s.take(i)) is Err,
        ensures
            self.decrypt_all(s) == self.decrypt_all(s.take(i)),
        decreases s.len(),
    {
        assert(i != 0);
        assert(s.take(i)[0] == s[0]);
        if self.decrypt_spec(s[0]) is Ok {
            assert(s.take(i).drop_first() =~= s.drop_first().take(i - 1));
            self.lemma_decrypt_all_prefix_err(s.drop_first(), i - 1);
        }
    }

    /// A database over the given backend and encrypter.
    pub fn new(backend: B, encrypter: E) -> (r: Self)
        ensures
            r.spec_backend() == backend,
            r.spec_encrypter() == encrypter,
    {
        Database { b: backend, e: encrypter }
    }

    /// Encrypt the secret, then store the record under the secret's name;
    /// nothing is persisted when encryption fails.
    pub fn store(&mut self, secret: Secret) -> (r: Result<(), Error>)
        ensures
            final(self).spec_encrypter() == old(self).spec_encrypter(),
            r is Ok ==> exists|ev: EncryptedView|
                ev.name == secret@.name && #[trigger] old(self).decrypt_spec(ev) == Ok::<
                    Seq<char>,
                    Error,
                >(secret@.secret) && final(self).recs() == upsert(old(self).recs(), ev),
            r is Err ==> final(self).recs() == old(self).recs(),
    {
        let enc = match self.e.encrypt(secret) {
            Ok(e) => e,
            Err(err) => return Err(err),
        };
        let ghost ev = enc@;
        match self.b.store(enc) {
            Ok(()) => {
                proof {
                    assert(old(self).decrypt_spec(ev) is Ok);
                }
                Ok(())
            },
            Err(err) => Err(err),
        }
    }

    /// Load the record of the name and decrypt it; an absent name is
    /// `NotFound`, and a decryption failure — a wrong password above all —
    /// propagates as its own error.
    pub fn load(&self, name: String) -> (r: Result<Secret, Error>)
        ensures
            match find_first(self.recs(), name@) {
                None => r == Err::<Secret, Error>(Error::NotFound),
                Some(ev) => match r {
                    Ok(s) => s@.name == name@ && self.decrypt_spec(ev) == Ok::<Seq<char>, Error>(
                        s@.secret,
                    ),
                    Err(err) => self.decrypt_spec(ev) == Err::<Seq<char>, Error>(err),
                },
            },
    {
        proof {
            lemma_first_index(self.recs(), name@);
        }
        match self.b.load(&name) {
            Ok(enc) => self.e.decrypt(enc),
            Err(err) => Err(err),
        }
    }

    /// Drop every record of the name from the backend.
    pub fn remove(&mut self, name: String) -> (r: Result<(), Error>)
        ensures
            final(self).spec_encrypter() == old(self).spec_encrypter(),
            r is Ok ==> final(self).recs() == remove_all(old(self).recs(), name@),
            r is Err ==> final(self).recs() == old(self).recs() && r == Err::<(), Error>(
                Error::NotFound,
            ) && !contains_name(old(self).recs(), name@),
    {
        self.b.remove(&name)
    }

    /// Decrypt every record, in storage order; one failure fails the whole
    /// listing.
    pub fn list(&self) -> (r: Result<Vec<Secret>, Error>)
        ensures
            match r {
                Ok(v) => self.decrypt_all(self.recs()) == Ok::<Seq<SecretView>, Error>(
                    v@.map_values(|s: Secret| s@),
                ),
                Err(err) => self.decrypt_all(self.recs()) == Err::<Seq<SecretView>, Error>(err),
            },
    {
        let encs = match self.b.list() {
            Ok(v) => v,
            Err(err) => return Err(err),
        };
        let ghost evs = self.recs();
        let n = encs.len();
        let mut out: Vec<Secret> = Vec::new();
        let mut i: usize = 0;
        proof {
            assert(evs.take(0) =~= Seq::<EncryptedView>::empty());
            assert(out@.map_values(|s: Secret| s@) =~= Seq::<SecretView>::empty());
        }
        while i < n
            invariant
                n == encs@.len(),
                evs == self.recs(),
                encs@.map_values(|e: Encrypted| e@) == evs,
                0 <= i <= n,
                self.decrypt_all(evs.take(i as int)) == Ok::<Seq<SecretView>, Error>(
                    out@.map_values(|s: Secret| s@),
                ),
            decreases n - i,
        {
            proof {
                assert(evs.take(i + 1) =~= evs.take(i as int).push(evs[i as int]));
                self.lemma_decrypt_all_snoc(evs.take(i as int), evs[i as int]);
                assert(encs@.map_values(|e: Encrypted| e@)[i as int] == encs@[i as int]@);
            }
            let ghost out0 = out@.map_values(|s: Secret| s@);
            match self.e.decrypt(encs[i].clone()) {
                Ok(s) => {
                    out.push(s);
                    proof {
                        assert(out@.map_values(|s: Secret| s@) =~= out0.push(out@.last()@));
                    }
                },
                Err(err) => {
                    proof {
                        self.lemma_decrypt_all_prefix_err(evs, i + 1);
                    }
                    return Err(err);
                },
            }
            i += 1;
        }
        proof {
            assert(evs.take(n as int) =~= evs);
        }
        Ok(out)
    }

    /// Load the secret under `current`, store it under `new_name`, then drop
    /// `current`.  When the two names are equal this deletes the secret, as
    /// the same three steps would.  Until the new record is stored nothing is
    /// dropped: on every failure the records are as they were.
    pub fn rename(&mut self, current: String, new_name: String) -> (r: Result<(), Error>)
        ensures
            final(self).spec_encrypter() == old(self).spec_encrypter(),
            r is Err ==> final(self).recs() == old(self).recs(),
            match find_first(old(self).recs(), current@) {
                None => r == Err::<(), Error>(Error::NotFound),
                Some(orig) => match old(self).decrypt_spec(orig) {
                    Err(err) => r == Err::<(), Error>(err),
                    Ok(sec) => r is Ok ==> exists|ev: EncryptedView|
                        ev.name == new_name@ && #[trigger] old(self).decrypt_spec(ev) == Ok::<
                            Seq<char>,
                            Error,
                        >(sec) && final(self).recs() == remove_all(
                            upsert(old(self).recs(), ev),
                            current@,
                        ),
                },
            },
    {
        let loaded = match self.load(current.clone()) {
            Ok(s) => s,
            Err(err) => return Err(err),
        };
        let renamed = Secret { name: new_name, secret: loaded.secret };
        let ghost sec = renamed@.secret;
        match self.store(renamed) {
            Ok(()) => {},
            Err(err) => return Err(err),
        }
        let ghost mid = self.recs();
        let ghost ev = choose|ev: EncryptedView|
            ev.name == new_name@ && #[trigger] old(self).decrypt_spec(ev) == Ok::<
                Seq<char>,
                Error,
            >(sec) && mid == upsert(old(self).recs(), ev);
        match self.remove(current) {
            Ok(()) => Ok(()),
            Err(err) => {
                proof {
                    lemma_first_index(old(self).recs(), current@);
                    lemma_contains_upsert(old(self).recs(), ev, current@);
                    assert(false);
                }
                Err(err)
            },
        }
    }

    /// Re-encrypt the whole database into `other`: list and decrypt every
    /// secret here, and store each one there, in order.  Rotation is not
    /// atomic: on failure `other` holds the records of a strict prefix of
    /// the secrets — so rotating a database that lists no secrets succeeds.
    pub fn rotate<B2: Backend, E2: Encrypter>(&self, other: &mut Database<B2, E2>) -> (r: Result<
        (),
        Error,
    >)
        ensures
            final(other).spec_encrypter() == old(other).spec_encrypter(),
            match self.decrypt_all(self.recs()) {
                Err(err) => r == Err::<(), Error>(err) && final(other).recs() == old(
                    other,
                ).recs(),
                Ok(ss) => exists|evs: Seq<EncryptedView>|
                    (if r is Ok {
                        evs.len() == ss.len()
                    } else {
                        evs.len() < ss.len()
                    }) && (forall|i: int|
                        0 <= i < evs.len() ==> (#[trigger] evs[i]).name == ss[i].name && old(
                            other,
                        ).decrypt_spec(evs[i]) == Ok::<Seq<char>, Error>(ss[i].secret))
                        && final(other).recs() == upsert_all(old(other).recs(), evs),
            },
    {
        let secrets = match self.list() {
            Ok(v) => v,
            Err(err) => {
                proof {
                    assert(upsert_all(old(other).recs(), Seq::<EncryptedView>::empty()) == old(
                        other,
                    ).recs());
                }
                return Err(err);
            },
        };
        let ghost ss = secrets@.map_values(|s: Secret| s@);
        let n = secrets.len();
        let ghost mut evs: Seq<EncryptedView> = Seq::empty();
        let mut i: usize = 0;
        while i < n
            invariant
                n == secrets@.len(),
                ss == secrets@.map_values(|s: Secret| s@),
                self.decrypt_all(self.recs()) == Ok::<Seq<SecretView>, Error>(ss),
                0 <= i <= n,
                evs.len() == i,
                forall|j: int|
                    0 <= j < i ==> (#[trigger] evs[j]).name == ss[j].name && old(
                        other,
                    ).decrypt_spec(evs[j]) == Ok::<Seq<char>, Error>(ss[j].secret),
                other.recs() == upsert_all(old(other).recs(), evs),
                other.spec_encrypter() == old(other).spec_encrypter(),
            decreases n - i,
        {
            let ghost other_before = *other;
            let s = secrets[i].clone();
            let ghost sv = s@;
            assert(sv == ss[i as int]);
            match other.store(s) {
                Ok(()) => {
                    proof {
                        let ev = choose|ev: EncryptedView|
                            ev.name == sv.name && #[trigger] other_before.decrypt_spec(ev) == Ok::<
                                Seq<char>,
                                Error,
                            >(sv.secret) && other.recs() == upsert(other_before.recs(), ev);
                        lemma_upsert_all_snoc(old(other).recs(), evs, ev);
                        evs = evs.push(ev);
                    }
                },
                Err(err) => {
                    proof {
                        assert(evs.len() < ss.len() && (forall|j: int|
                            0 <= j < evs.len() ==> (#[trigger] evs[j]).name == ss[j].name && old(
                                other,
                            ).decrypt_spec(evs[j]) == Ok::<Seq<char>, Error>(ss[j].secret))
                            && other.recs() == upsert_all(old(other).recs(), evs));
                        assert(exists|evs2: Seq<EncryptedView>|
                            evs2.len() < ss.len() && (forall|j: int|
                                0 <= j < evs2.len() ==> (#[trigger] evs2[j]).name == ss[j].name
                                    && old(other).decrypt_spec(evs2[j]) == Ok::<Seq<char>, Error>(
                                    ss[j].secret,
                                )) && #[trigger] upsert_all(old(other).recs(), evs2)
                                == other.recs());
                    }
                    return Err(err);
                },
            }
            i += 1;
        }
        Ok(())
    }

    /// Rotation preserves the secret set: records that decrypt, under this
    /// database's encrypter, pointwise to the secrets `ss`, and are stored
    /// in order into an empty backend, decrypt as a whole back to exactly
    /// `ss` — same names, same plaintexts, same order.
    pub proof fn lemma_rotation_preserves_secrets(
        &self,
        evs: Seq<EncryptedView>,
        ss: Seq<SecretView>,
    )
        requires
            evs.len() == ss.len(),
            forall|i: int|
                0 <= i < evs.len() ==> (#[trigger] evs[i]).name == ss[i].name && self.decrypt_spec(
                    evs[i],
                ) == Ok::<Seq<char>, Error>(ss[i].secret),
            crate::records::unique_names(evs),
        ensures
            upsert_all(Seq::<EncryptedView>::empty(), evs) == evs,
            self.decrypt_all(evs) == Ok::<Seq<SecretView>, Error>(ss),
        decreases evs.len(),
    {
        crate::records::lemma_upsert_all_disjoint(Seq::<EncryptedView>::empty(), evs);
        assert(Seq::<EncryptedView>::empty() + evs =~= evs);
        if evs.len() == 0 {
            assert(ss =~= Seq::<SecretView>::empty());
        } else {
            assert(evs[0].name == ss[0].name && self.decrypt_spec(evs[0]) == Ok::<
                Seq<char>,
                Error,
            >(ss[0].secret));
        }
        if evs.len() != 0 {
            let revs = evs.drop_first();
            let rss = ss.drop_first();
            assert forall|i: int, j: int| 0 <= i < j < revs.len() implies #[trigger] revs[i].name
                != #[trigger] revs[j].name by {
                assert(revs[i] == evs[i + 1] && revs[j] == evs[j + 1]);
            }
            assert forall|i: int| 0 <= i < revs.len() implies (#[trigger] revs[i]).name
                == rss[i].name && self.decrypt_spec(revs[i]) == Ok::<Seq<char>, Error>(
                rss[i].secret,
            ) by {
                assert(revs[i] == evs[i + 1] && rss[i] == ss[i + 1]);
            }
            self.lemma_rotation_preserves_secrets(revs, rss);
            assert(ss[0] == SecretView { name: evs[0].name, secret: ss[0].secret });
            assert(seq![ss[0]] + rss =~= ss);
        }
    }

    /// A database whose backend holds nothing finds no name and lists the
    /// empty set of secrets.
    pub proof fn lemma_empty_database(&self, name: Seq<char>)
        requires
            self.recs() == Seq::<EncryptedView>::empty(),
        ensures
            find_first(self.recs(), name) is None,
            self.decrypt_all(self.recs()) == Ok::<Seq<SecretView>, Error>(
                Seq::<SecretView>::empty(),
            ),
    {
    }

    /// The encrypted records as stored, for the owner of the storage
    /// location to persist; nothing is decrypted.
    pub fn export(&self) -> (r: Result<Vec<Encrypted>, Error>)
        ensures
            match r {
                Ok(v) => v@.map_values(|e: Encrypted| e@) == self.recs(),
                Err(_) => false,
            },
    {
        self.b.list()
    }
}

} // verus!

use vstd::prelude::*;
use crate::crypto::{
    argon2_accepts, argon2_phc, argon2_phc_of, base64_of, is_argon2_hash, is_generated_salt,
    phc_b64_of, MAX_PASSWORD_LEN, NONCE_LEN, TAG_LEN, argon2_verify, derive_key_from_password,
    blob_opens_to, decrypt_blob, derived_key, encrypt_blob, fits_cipher, fresh_salt, utf8_bytes,
    utf8_of,
};
use crate::session::Session;

verus! {

/// What an operation on the vault can fail with.
#[derive(PartialEq, Eq, Structural, Debug, Clone, Copy)]
pub enum VaultError {
    /// A master password is already set up.
    AlreadySetUp,
    /// No master password is set up yet.
    SetupMissing,
    /// The session is not authenticated, or lapsed.
    SessionExpired,
    /// Sealing or opening a password failed.
    CryptoFailure,
    /// No record has the id asked for.
    NotFound,
    /// The store could not take or read a value.
    StorageFailure,
}

/// Whether a master password is set up, and whether a session is live.
#[derive(PartialEq, Eq, Structural, Debug, Clone, Copy)]
pub struct AuthStatus {
    pub is_authenticated: bool,
    pub needs_setup: bool,
}

/// The one master credential: an Argon2 PHC string, the base64 salt that the
/// session key is also derived with, and the time of setup.
pub struct MasterRecord {
    pub password_hash: String,
    pub salt: String,
    pub created_at: u64,
}

/// The master credential as values.
pub ghost struct MasterView {
    pub password_hash: Seq<char>,
    pub salt: Seq<char>,
    pub created_at: u64,
}

impl View for MasterRecord {
    type V = MasterView;

    open spec fn view(&self) -> MasterView {
        MasterView { password_hash: self.password_hash@, salt: self.salt@, created_at: self.created_at }
    }
}

/// The view of an optional text field.
pub open spec fn text_view(t: Option<String>) -> Option<Seq<char>> {
    match t {
        Some(s) => Some(s@),
        None => None,
    }
}

/// A stored credential; its password is kept only as a sealed blob.
pub struct PasswordRecord {
    pub id: i64,
    pub title: String,
    pub username: String,
    pub encrypted_password: String,
    pub category: Option<String>,
    pub notes: Option<String>,
    pub last_accessed: Option<String>,
}

/// A stored credential as values.
pub ghost struct RecordView {
    pub id: i64,
    pub title: Seq<char>,
    pub username: Seq<char>,
    pub encrypted_password: Seq<char>,
    pub category: Option<Seq<char>>,
    pub notes: Option<Seq<char>>,
    pub last_accessed: Option<Seq<char>>,
}

impl View for PasswordRecord {
    type V = RecordView;

    open spec fn view(&self) -> RecordView {
        RecordView {
            id: self.id,
            title: self.title@,
            username: self.username@,
            encrypted_password: self.encrypted_password@,
            category: text_view(self.category),
            notes: text_view(self.notes),
            last_accessed: text_view(self.last_accessed),
        }
    }
}

/// The views of a sequence of records.
pub open spec fn records_of(rs: Seq<PasswordRecord>) -> Seq<RecordView> {
    rs.map_values(|r: PasswordRecord| r@)
}

fn copy_text(t: &Option<String>) -> (r: Option<String>)
    ensures
        text_view(r) == text_view(*t),
{
    match t {
        Some(s) => Some(s.clone()),
        None => None,
    }
}

fn copy_record(r: &PasswordRecord) -> (c: PasswordRecord)
    ensures
        c@ == r@,
{
    PasswordRecord {
        id: r.id,
        title: r.title.clone(),
        username: r.username.clone(),
        encrypted_password: r.encrypted_password.clone(),
        category: copy_text(&r.category),
        notes: copy_text(&r.notes),
        last_accessed: copy_text(&r.last_accessed),
    }
}

/// `i` is the first position in `rs` of a record with id `id`.
pub open spec fn first_with_id(rs: Seq<RecordView>, id: i64, i: int) -> bool {
    0 <= i < rs.len() && rs[i].id == id && forall|j: int| 0 <= j < i ==> rs[j].id != id
}

/// Ids strictly increase along `rs`, and all are below `bound`: each id names
/// at most one record, and `bound` names none.
pub open spec fn ids_ordered(rs: Seq<RecordView>, bound: i64) -> bool {
    &&& forall|a: int, b: int| 0 <= a < b < rs.len() ==> rs[a].id < rs[b].id
    &&& forall|a: int| 0 <= a < rs.len() ==> rs[a].id < bound
}

/// Holds of the records whose id is not `id`.
pub open spec fn other_than(id: i64) -> spec_fn(RecordView) -> bool {
    |x: RecordView| x.id != id
}

/// The vault: the master credential if set up, the session, and the stored
/// records with the id the next one gets.
pub struct Vault {
    master: Option<MasterRecord>,
    session: Session,
    records: Vec<PasswordRecord>,
    next_id: i64,
}

impl Vault {
    /// The master credential, if set up.
    pub closed spec fn master_view(&self) -> Option<MasterView> {
        match self.master {
            Some(m) => Some(m@),
            None => None,
        }
    }

    /// The session guard.
    pub closed spec fn session(&self) -> Session {
        self.session
    }

    /// The stored records, in order of insertion.
    pub closed spec fn records_view(&self) -> Seq<RecordView> {
        records_of(self.records@)
    }

    /// The id that the next stored record gets.
    pub closed spec fn next_id(&self) -> i64 {
        self.next_id
    }

    /// The session is well formed, and record ids are ordered and below the next id.
    pub open spec fn wf(&self) -> bool {
        &&& self.session().wf()
        &&& self.next_id() >= 1
        &&& ids_ordered(self.records_view(), self.next_id())
    }

    /// A master password is set up.
    pub open spec fn is_set_up(&self) -> bool {
        self.master_view() is Some
    }

    /// The stored data (master credential and records) is as in `before`.
    pub open spec fn keeps_data(&self, before: &Vault) -> bool {
        self.master_view() == before.master_view() && self.records_view() == before.records_view()
            && self.next_id() == before.next_id()
    }

    /// Nothing changed from `before`.
    pub open spec fn keeps_all(&self, before: &Vault) -> bool {
        self.keeps_data(before) && self.session().key_view() == before.session().key_view()
            && self.session().last() == before.session().last()
    }

    /// The session is unauthenticated, its clock reset.
    pub open spec fn logged_out(&self) -> bool {
        self.session().key_view() is None && self.session().last() == 0
    }

    /// The session holds the key of `before` and was refreshed at `now`.
    pub open spec fn refreshed(&self, before: &Vault, now: u64) -> bool {
        self.session().key_view() == before.session().key_view() && self.session().last() == now
    }

    /// The session holds the key for `password` and the master salt, from `now`.
    pub open spec fn unlocked_with(&self, password: Seq<char>, now: u64) -> bool {
        self.master_view() matches Some(m) && self.session().key_view() == Some(
            derived_key(password, m.salt),
        ) && self.session().last() == now
    }

    /// A master credential for `password` was recorded at `now` with a fresh salt,
    /// a session opened with the key for both, and the records kept as in `before`.
    pub open spec fn set_up_from(&self, before: &Vault, password: Seq<char>, now: u64) -> bool {
        &&& self.master_view() matches Some(m)
        &&& self.master_view()->Some_0.password_hash == argon2_phc_of(
            utf8_of(password),
            self.master_view()->Some_0.salt,
        )
        &&& is_generated_salt(self.master_view()->Some_0.salt)
        &&& self.master_view()->Some_0.created_at == now
        &&& self.unlocked_with(password, now)
        &&& self.records_view() == before.records_view()
        &&& self.next_id() == before.next_id()
    }

    /// An empty vault with no master password and no session.
    pub fn new() -> (r: Vault)
        ensures
            r.wf(),
            r.master_view() is None,
            r.records_view() == Seq::<RecordView>::empty(),
            r.next_id() == 1,
            r.logged_out(),
    {
        let r = Vault { master: None, session: Session::new(), records: Vec::new(), next_id: 1 };
        assert(r.records_view() =~= Seq::<RecordView>::empty());
        r
    }

    /// A vault over stored data: the master credential if set up and the
    /// records, with `next_id` the id the next record gets. No session is open.
    pub fn restore(master: Option<MasterRecord>, records: Vec<PasswordRecord>, next_id: i64) -> (r: Vault)
        requires
            next_id >= 1,
            ids_ordered(records_of(records@), next_id),
        ensures
            r.wf(),
            r.master_view() == (match master {
                Some(m) => Some(m@),
                None => None::<MasterView>,
            }),
            r.records_view() == records_of(records@),
            r.next_id() == next_id,
            r.logged_out(),
    {
        Vault { master, session: Session::new(), records, next_id }
    }

    /// The master credential, if set up.
    pub fn master(&self) -> (r: Option<&MasterRecord>)
        ensures
            r matches Some(m) ==> self.master_view() == Some(m@),
            r is None ==> self.master_view() is None,
    {
        match &self.master {
            Some(m) => Some(m),
            None => None,
        }
    }

    /// Whether setup is still needed, and whether a valid session is live at
    /// `now` (never before setup).
    pub fn check_auth_status(&self, now: u64) -> (r: AuthStatus)
        ensures
            r.needs_setup == !self.is_set_up(),
            r.is_authenticated == (self.is_set_up() && self.session().valid_at(now)),
    {
        let needs_setup = self.master.is_none();
        let is_authenticated = !needs_setup && self.session.is_valid(now);
        AuthStatus { is_authenticated, needs_setup }
    }

    /// Records the master credential (hash and salt) at `now` and opens a
    /// session with the key derived from the password and salt; refused when a
    /// master credential exists.
    pub fn complete_setup(
        &mut self,
        master_password: &str,
        salt: String,
        password_hash: String,
        now: u64,
    ) -> (r: Result<(), VaultError>)
        requires
            old(self).wf(),
        ensures
            final(self).wf(),
            old(self).is_set_up() ==> r == Err::<(), VaultError>(VaultError::AlreadySetUp)
                && final(self).keeps_all(old(self)),
            !old(self).is_set_up() ==> r is Ok && final(self).master_view() == Some(
                (MasterView { password_hash: password_hash@, salt: salt@, created_at: now }),
            ) && final(self).unlocked_with(master_password@, now)
                && final(self).records_view() == old(self).records_view()
                && final(self).next_id() == old(self).next_id(),
    {
        if self.master.is_some() {
            return Err(VaultError::AlreadySetUp);
        }
        let key = derive_key_from_password(master_password, salt.as_str());
        self.master = Some(MasterRecord { password_hash, salt, created_at: now });
        self.session.install(key, now);
        Ok(())
    }

    /// Sets up the master password: a fresh random salt, an Argon2 hash of the
    /// password under it, and a session opened at `now`. Refused when a master
    /// password is set up. It succeeds otherwise, unless the password is longer
    /// than Argon2 accepts, which fails with `CryptoFailure` and changes nothing.
    pub fn setup_master_password(&mut self, master_password: &str, now: u64) -> (r: Result<(), VaultError>)
        requires
            old(self).wf(),
        ensures
            final(self).wf(),
            old(self).is_set_up() ==> r == Err::<(), VaultError>(VaultError::AlreadySetUp)
                && final(self).keeps_all(old(self)),
            !old(self).is_set_up() && r is Ok ==> final(self).set_up_from(old(self), master_password@, now),
            !old(self).is_set_up() && utf8_of(master_password@).len() <= MAX_PASSWORD_LEN ==> r is Ok,
            !old(self).is_set_up() && r is Err ==> r == Err::<(), VaultError>(VaultError::CryptoFailure)
                && final(self).keeps_all(old(self)),
    {
        if self.master.is_some() {
            return Err(VaultError::AlreadySetUp);
        }
        let salt = fresh_salt();
        let bytes = utf8_bytes(master_password);
        match argon2_phc(bytes.as_slice(), salt.as_str()) {
            Some(hash) => self.complete_setup(master_password, salt, hash, now),
            None => Err(VaultError::CryptoFailure),
        }
    }

    /// Acts on the outcome of checking a password against the master hash: an
    /// accepted password opens a session at `now` with the key derived from it
    /// and the master salt; a refused one ends any session.
    pub fn complete_authentication(&mut self, master_password: &str, accepted: bool, now: u64) -> (r:
        Result<bool, VaultError>)
        requires
            old(self).wf(),
        ensures
            final(self).wf(),
            !old(self).is_set_up() ==> r == Err::<bool, VaultError>(VaultError::SetupMissing)
                && final(self).keeps_all(old(self)),
            old(self).is_set_up() ==> r == Ok::<bool, VaultError>(accepted) && final(self).keeps_data(
                old(self),
            ),
            old(self).is_set_up() && accepted ==> final(self).unlocked_with(master_password@, now),
            old(self).is_set_up() && !accepted ==> final(self).logged_out(),
    {
        match &self.master {
            None => Err(VaultError::SetupMissing),
            Some(m) => {
                if accepted {
                    let key = derive_key_from_password(master_password, m.salt.as_str());
                    self.session.install(key, now);
                    Ok(true)
                } else {
                    self.session.clear();
                    Ok(false)
                }
            },
        }
    }

    /// Checks `master_password` against the stored hash. A match opens a
    /// session at `now` and gives `true`; a mismatch ends any session and gives
    /// `false`. Before setup it fails with `SetupMissing`; a stored hash that
    /// does not parse gives `StorageFailure`, and changes nothing.
    pub fn authenticate(&mut self, master_password: &str, now: u64) -> (r: Result<bool, VaultError>)
        requires
            old(self).wf(),
        ensures
            final(self).wf(),
            !old(self).is_set_up() ==> r == Err::<bool, VaultError>(VaultError::SetupMissing)
                && final(self).keeps_all(old(self)),
            old(self).master_view() matches Some(m) ==> {
                &&& r == Ok::<bool, VaultError>(true) ==> argon2_accepts(utf8_of(master_password@), m.password_hash)
                    && final(self).unlocked_with(master_password@, now)
                    && final(self).keeps_data(old(self))
                &&& r == Ok::<bool, VaultError>(false) ==> !argon2_accepts(utf8_of(master_password@), m.password_hash)
                    && final(self).logged_out() && final(self).keeps_data(old(self))
                &&& r is Err ==> r == Err::<bool, VaultError>(VaultError::StorageFailure)
                    && final(self).keeps_all(old(self))
                &&& r is Err ==> !is_argon2_hash(m.password_hash)
                &&& is_argon2_hash(m.password_hash) ==> r == Ok::<bool, VaultError>(
                    argon2_accepts(utf8_of(master_password@), m.password_hash),
                )
                &&& is_generated_salt(m.salt) && utf8_of(master_password@).len() <= MAX_PASSWORD_LEN
                    && m.password_hash == argon2_phc_of(utf8_of(master_password@), m.salt) ==> r
                    == Ok::<bool, VaultError>(true)
            },
    {
        let verdict = match &self.master {
            None => {
                return Err(VaultError::SetupMissing);
            },
            Some(m) => {
                let bytes = utf8_bytes(master_password);
                argon2_verify(bytes.as_slice(), m.password_hash.as_str())
            },
        };
        match verdict {
            Some(accepted) => self.complete_authentication(master_password, accepted, now),
            None => Err(VaultError::StorageFailure),
        }
    }

    /// The record that `add_password` appends: the next id, the fields given,
    /// and a blob that opens under `key` to `password` (so longer than it).
    pub open spec fn appended(
        &self,
        before: &Vault,
        key: Seq<u8>,
        title: Seq<char>,
        username: Seq<char>,
        password: Seq<char>,
        category: Option<Seq<char>>,
        notes: Option<Seq<char>>,
    ) -> bool {
        let rs = self.records_view();
        let n = before.records_view().len();
        &&& rs.len() == n + 1
        &&& rs.subrange(0, n as int) == before.records_view()
        &&& rs[n as int].id == before.next_id()
        &&& rs[n as int].title == title
        &&& rs[n as int].username == username
        &&& blob_opens_to(key, rs[n as int].encrypted_password, password)
        &&& rs[n as int].encrypted_password.len() > password.len()
        &&& rs[n as int].category == category
        &&& rs[n as int].notes == notes
        &&& rs[n as int].last_accessed is None
        &&& self.next_id() == before.next_id() + 1
    }

    /// All stored records, with their passwords still sealed. Needs a session
    /// valid at `now`, which it refreshes; a lapsed one is ended.
    pub fn get_passwords(&mut self, now: u64) -> (r: Result<Vec<PasswordRecord>, VaultError>)
        requires
            old(self).wf(),
        ensures
            final(self).wf(),
            final(self).keeps_data(old(self)),
            old(self).session().valid_at(now) ==> (r matches Ok(v) && records_of(v@) == old(
                self,
            ).records_view()) && final(self).refreshed(old(self), now),
            !old(self).session().valid_at(now) ==> r == Err::<Vec<PasswordRecord>, VaultError>(
                VaultError::SessionExpired,
            ) && final(self).logged_out(),
    {
        if !self.session.enter(now) {
            return Err(VaultError::SessionExpired);
        }
        let mut out: Vec<PasswordRecord> = Vec::new();
        let mut i: usize = 0;
        while i < self.records.len()
            invariant
                i <= self.records@.len(),
                out@.len() == i,
                forall|j: int| 0 <= j < i ==> #[trigger] out@[j]@ == self.records@[j]@,
            decreases self.records@.len() - i,
        {
            out.push(copy_record(&self.records[i]));
            i += 1;
        }
        assert(records_of(out@) =~= records_of(self.records@));
        Ok(out)
    }

    /// Stores a new record under the next id, its password sealed under the
    /// session key with a fresh nonce. Needs a session valid at `now`, which it
    /// refreshes. Fails with `StorageFailure` when ids are exhausted, and with
    /// `CryptoFailure` when the password is too long for the cipher.
    pub fn add_password(
        &mut self,
        title: String,
        username: String,
        password: &str,
        category: Option<String>,
        notes: Option<String>,
        now: u64,
    ) -> (r: Result<(), VaultError>)
        requires
            old(self).wf(),
        ensures
            final(self).wf(),
            final(self).master_view() == old(self).master_view(),
            !old(self).session().valid_at(now) ==> r == Err::<(), VaultError>(
                VaultError::SessionExpired,
            ) && final(self).logged_out() && final(self).keeps_data(old(self)),
            old(self).session().valid_at(now) ==> final(self).refreshed(old(self), now),
            old(self).session().valid_at(now) && old(self).next_id() == i64::MAX ==> r == Err::<
                (),
                VaultError,
            >(VaultError::StorageFailure) && final(self).keeps_data(old(self)),
            old(self).session().valid_at(now) && old(self).next_id() < i64::MAX && !fits_cipher(
                password@,
            ) ==> r == Err::<(), VaultError>(VaultError::CryptoFailure) && final(self).keeps_data(
                old(self),
            ),
            old(self).session().valid_at(now) && old(self).next_id() < i64::MAX && fits_cipher(
                password@,
            ) ==> r is Ok && final(self).appended(
                old(self),
                old(self).session().key_view()->Some_0,
                title@,
                username@,
                password@,
                text_view(category),
                text_view(notes),
            ),
    {
        if !self.session.enter(now) {
            return Err(VaultError::SessionExpired);
        }
        if self.next_id == i64::MAX {
            return Err(VaultError::StorageFailure);
        }
        let sealed = match self.session.key() {
            Some(key) => encrypt_blob(key, password),
            None => {
                return Err(VaultError::SessionExpired);
            },
        };
        let encrypted_password = match sealed {
            Some(b) => b,
            None => {
                return Err(VaultError::CryptoFailure);
            },
        };
        let record = PasswordRecord {
            id: self.next_id,
            title,
            username,
            encrypted_password,
            category,
            notes,
            last_accessed: None,
        };
        let ghost before = self.records@;
        self.records.push(record);
        self.next_id = self.next_id + 1;
        assert(records_of(self.records@).subrange(0, before.len() as int) =~= records_of(before));
        assert(records_of(self.records@) =~= records_of(before).push(self.records@[before.len() as int]@));
        Ok(())
    }

    /// Opens the password of the record with id `id` under the session key.
    /// Needs a session valid at `now`, which it refreshes. Fails with
    /// `NotFound` when no record has that id, and with `CryptoFailure` when its
    /// blob does not open under the session key.
    pub fn decrypt_password(&mut self, id: i64, now: u64) -> (r: Result<String, VaultError>)
        requires
            old(self).wf(),
        ensures
            final(self).wf(),
            final(self).keeps_data(old(self)),
            !old(self).session().valid_at(now) ==> r == Err::<String, VaultError>(
                VaultError::SessionExpired,
            ) && final(self).logged_out(),
            old(self).session().valid_at(now) ==> final(self).refreshed(old(self), now),
            old(self).session().valid_at(now) ==> (r == Err::<String, VaultError>(VaultError::NotFound)
                <==> forall|i: int|
                0 <= i < old(self).records_view().len() ==> old(self).records_view()[i].id != id),
            r matches Ok(p) ==> exists|i: int|
                first_with_id(old(self).records_view(), id, i) && blob_opens_to(
                    old(self).session().key_view()->Some_0,
                    old(self).records_view()[i].encrypted_password,
                    p@,
                ),
            old(self).session().valid_at(now) ==> forall|i: int, q: Seq<char>|
                first_with_id(old(self).records_view(), id, i) && fits_cipher(q) && blob_opens_to(
                    old(self).session().key_view()->Some_0,
                    old(self).records_view()[i].encrypted_password,
                    q,
                ) ==> (r matches Ok(p) && p@ == q),
            r == Err::<String, VaultError>(VaultError::CryptoFailure) ==> exists|i: int|
                first_with_id(old(self).records_view(), id, i),
            old(self).session().valid_at(now) ==> forall|i: int|
                first_with_id(old(self).records_view(), id, i) && (forall|q: Seq<char>|
                    fits_cipher(q) ==> !#[trigger] blob_opens_to(
                        old(self).session().key_view()->Some_0,
                        old(self).records_view()[i].encrypted_password,
                        q,
                    )) ==> r == Err::<String, VaultError>(VaultError::CryptoFailure),
            r matches Ok(p) ==> fits_cipher(p@),
            old(self).session().valid_at(now) ==> forall|i: int, b: Seq<u8>|
                #[trigger] first_with_id(old(self).records_view(), id, i) && #[trigger] base64_of(b)
                    == old(self).records_view()[i].encrypted_password && b.len() < NONCE_LEN
                    + TAG_LEN ==> r == Err::<String, VaultError>(VaultError::CryptoFailure),
    {
        if !self.session.enter(now) {
            return Err(VaultError::SessionExpired);
        }
        let mut i: usize = 0;
        while i < self.records.len() && self.records[i].id != id
            invariant
                i <= self.records@.len(),
                forall|j: int| 0 <= j < i ==> #[trigger] self.records@[j].id != id,
            decreases self.records@.len() - i,
        {
            i += 1;
        }
        if i == self.records.len() {
            return Err(VaultError::NotFound);
        }
        assert(first_with_id(records_of(self.records@), id, i as int));
        let opened = match self.session.key() {
            Some(key) => decrypt_blob(key, self.records[i].encrypted_password.as_str()),
            None => {
                return Err(VaultError::SessionExpired);
            },
        };
        proof {
            assert(records_of(self.records@)[i as int] == self.records@[i as int]@);
            if let Some(p) = &opened {
                assert(blob_opens_to(
                    self.session.key_view()->Some_0,
                    records_of(self.records@)[i as int].encrypted_password,
                    p@,
                ));
            }
            assert forall|k: int| #[trigger] first_with_id(records_of(self.records@), id, k) implies k == i by {
                if k < i {
                } else if k > i {
                    assert(records_of(self.records@)[i as int].id == id);
                }
            }
        }
        match opened {
            Some(p) => Ok(p),
            None => Err(VaultError::CryptoFailure),
        }
    }

    /// Removes every record with id `id`; an absent id is no error. Needs a
    /// session valid at `now`, which it refreshes.
    pub fn delete_password(&mut self, id: i64, now: u64) -> (r: Result<(), VaultError>)
        requires
            old(self).wf(),
        ensures
            final(self).wf(),
            final(self).master_view() == old(self).master_view(),
            final(self).next_id() == old(self).next_id(),
            !old(self).session().valid_at(now) ==> r == Err::<(), VaultError>(
                VaultError::SessionExpired,
            ) && final(self).logged_out() && final(self).keeps_data(old(self)),
            old(self).session().valid_at(now) ==> r is Ok && final(self).refreshed(old(self), now)
                && final(self).records_view() == old(self).records_view().filter(other_than(id)),
    {
        if !self.session.enter(now) {
            return Err(VaultError::SessionExpired);
        }
        let ghost all = records_of(self.records@);
        let mut kept: Vec<PasswordRecord> = Vec::new();
        let mut i: usize = 0;
        while i < self.records.len()
            invariant
                i <= self.records@.len(),
                all == records_of(self.records@),
                records_of(kept@) == all.subrange(0, i as int).filter(other_than(id)),
                ids_ordered(all, self.next_id),
                ids_ordered(records_of(kept@), self.next_id),
                i < all.len() ==> forall|j: int|
                    0 <= j < kept@.len() ==> #[trigger] records_of(kept@)[j].id < all[i as int].id,
            decreases self.records@.len() - i,
        {
            let ghost before = records_of(kept@);
            assert(all[i as int] == self.records@[i as int]@);
            assert(other_than(id)(all[i as int]) == (self.records@[i as int].id != id));
            if self.records[i].id != id {
                kept.push(copy_record(&self.records[i]));
                assert(records_of(kept@) =~= before.push(all[i as int]));
            } else {
                assert(records_of(kept@) =~= before);
            }
            proof {
                reveal(Seq::filter);
                assert(all.subrange(0, i + 1).drop_last() =~= all.subrange(0, i as int));
                let upto = all.subrange(0, i + 1);
                assert(upto.last() == all[i as int]);
                assert(upto.len() > 0);
                assert(upto.filter(other_than(id)) == if other_than(id)(upto.last()) {
                    upto.drop_last().filter(other_than(id)).push(upto.last())
                } else {
                    upto.drop_last().filter(other_than(id))
                });
            }
            i += 1;
        }
        assert(all.subrange(0, i as int) =~= all);
        self.records = kept;
        Ok(())
    }

    /// Ends the session: the key is erased and the clock reset.
    pub fn logout(&mut self)
        requires
            old(self).wf(),
        ensures
            final(self).wf(),
            final(self).logged_out(),
            final(self).keeps_data(old(self)),
    {
        self.session.clear();
    }
}

/// Setup happens once: a vault that a successful setup left behind is set up,
/// which is the condition under which `setup_master_password` answers
/// `AlreadySetUp` and changes nothing.
pub proof fn lemma_setup_exclusive(before: Vault, after: Vault, password: Seq<char>, now: u64)
    requires
        after.set_up_from(&before, password, now),
    ensures
        after.is_set_up(),
{
}

/// A refused password leaves no session behind: after `authenticate` returned
/// `false`, the session is invalid at every time, so every privileged call
/// fails with `SessionExpired`.
pub proof fn lemma_refused_password_locks(after: Vault, t: u64)
    requires
        after.logged_out(),
    ensures
        !after.session().valid_at(t),
{
}

/// The password given at setup authenticates later, and any other password
/// gets a plain answer: the stored hash is the Argon2 hash of that password
/// under a generated salt, so it is well formed, and `authenticate` answers
/// `Ok(true)` for the password and `Ok(argon2_accepts(..))` for any password.
pub proof fn lemma_setup_password_authenticates(before: Vault, after: Vault, password: Seq<char>, now: u64)
    requires
        after.set_up_from(&before, password, now),
        utf8_of(password).len() <= MAX_PASSWORD_LEN,
    ensures
        after.master_view() matches Some(m) && m.password_hash == argon2_phc_of(
            utf8_of(password),
            m.salt,
        ) && is_generated_salt(m.salt) && is_argon2_hash(m.password_hash),
{
    let m = after.master_view()->Some_0;
    let b = choose|b: Seq<u8>| b.len() == 16 && #[trigger] phc_b64_of(b) == m.salt;
    assert(argon2_phc_of(utf8_of(password), phc_b64_of(b)) == m.password_hash);
}

/// A record that `add_password` stored is the one record with its id, and its
/// blob opens under the session key to the password given; `decrypt_password`
/// on that id then returns the password.
pub proof fn lemma_added_record_opens(
    before: Vault,
    after: Vault,
    key: Seq<u8>,
    title: Seq<char>,
    username: Seq<char>,
    password: Seq<char>,
    category: Option<Seq<char>>,
    notes: Option<Seq<char>>,
)
    requires
        before.wf(),
        after.appended(&before, key, title, username, password, category, notes),
    ensures
        first_with_id(after.records_view(), before.next_id(), before.records_view().len() as int),
        blob_opens_to(
            key,
            after.records_view()[before.records_view().len() as int].encrypted_password,
            password,
        ),
{
    let n = before.records_view().len() as int;
    assert forall|j: int| 0 <= j < n implies after.records_view()[j].id != before.next_id() by {
        assert(after.records_view().subrange(0, n)[j] == after.records_view()[j]);
    }
}

/// Unlocking twice with the same password under the same master credential
/// installs the same key, so records sealed in one session open in the other.
pub proof fn lemma_reauthentication_same_key(
    first: Vault,
    second: Vault,
    password: Seq<char>,
    t1: u64,
    t2: u64,
)
    requires
        first.master_view() == second.master_view(),
        first.unlocked_with(password, t1),
        second.unlocked_with(password, t2),
    ensures
        first.session().key_view() == second.session().key_view(),
{
}

} // verus!

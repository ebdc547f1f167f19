use argon2::password_hash::rand_core::OsRng;
use argon2::password_hash::{PasswordHash, PasswordHasher, PasswordVerifier, SaltString};
use vstd::hash_map::StringHashMap;
use vstd::prelude::*;

use crate::config::UserConfig;

verus! {

broadcast use vstd::string::group_string_axioms;

/// Whether `password` matches the PHC-format Argon2 hash `phc` (what
/// `argon2::Argon2::verify_password` decides once `password_hash::PasswordHash::new` has
/// parsed the hash; a hash that does not parse matches nothing).
pub uninterp spec fn argon2_verifies(password: Seq<char>, phc: Seq<char>) -> bool;

/// Checks `password` against the PHC string `phc` with `argon2` (`PasswordHash::new`, then
/// `Argon2::default().verify_password`). The contract claims that the result is a function
/// of the two texts alone, named [`argon2_verifies`]; a hash that does not parse gives false.
#[verifier::external_body]
fn argon2_verify(password: &str, phc: &str) -> (ok: bool)
    ensures
        ok == argon2_verifies(password@, phc@),
{
    match PasswordHash::new(phc) {
        Ok(h) => argon2::Argon2::default().verify_password(password.as_bytes(), &h).is_ok(),
        Err(_) => false,
    }
}

/// Hashes `password` with `argon2` (`Argon2::default().hash_password` with a salt from
/// `SaltString::generate(&mut OsRng)`) and returns the PHC string, or the text of the error.
/// The salt is random, so the hash itself is not promised. The contract claims what the
/// `argon2` source shows: the hash it returns verifies against the same password, and with
/// the default parameters and a generated salt the only error is a password longer than
/// `argon2::MAX_PWD_LEN` (`0xFFFF_FFFF`) bytes, so a password within it always hashes.
#[verifier::external_body]
fn argon2_hash(password: &str) -> (r: Result<String, String>)
    ensures
        r matches Ok(h) ==> argon2_verifies(password@, h@),
        password.len() <= 0xFFFF_FFFF ==> r is Ok,
{
    let salt = SaltString::generate(&mut OsRng);
    match argon2::Argon2::default().hash_password(password.as_bytes(), &salt) {
        Ok(h) => Ok(h.to_string()),
        Err(e) => Err(e.to_string()),
    }
}

/// A user's stored credentials and role.
#[derive(Debug, Clone)]
pub struct UserEntry {
    pub password_hash: String,
    pub role: String,
}

/// The mathematical content of a [`UserEntry`].
pub struct EntryView {
    pub password_hash: Seq<char>,
    pub role: Seq<char>,
}

impl View for UserEntry {
    type V = EntryView;

    open spec fn view(&self) -> EntryView {
        EntryView { password_hash: self.password_hash@, role: self.role@ }
    }
}

/// What the user listing shows of a user.
#[derive(Debug, Clone)]
pub struct UserInfo {
    pub username: String,
    pub role: String,
}

/// The users that may log in to the admin API, by name.
pub struct UserStore {
    entries: StringHashMap<UserEntry>,
    names: Vec<String>,
}

/// The names of a list of strings.
pub open spec fn name_texts(v: Seq<String>) -> Seq<Seq<char>> {
    v.map_values(|s: String| s@)
}

/// The entry views of a map of entries.
pub open spec fn entry_views(m: Map<Seq<char>, UserEntry>) -> Map<Seq<char>, EntryView> {
    m.map_values(|e: UserEntry| e@)
}

impl View for UserStore {
    type V = Map<Seq<char>, EntryView>;

    closed spec fn view(&self) -> Map<Seq<char>, EntryView> {
        entry_views(self.entries@)
    }
}

/// The users a configuration defines: each entry in order, a later entry for the same name
/// replacing an earlier one.
pub open spec fn users_from(cfg: Seq<crate::config::UserConfigView>) -> Map<Seq<char>, EntryView>
    decreases cfg.len(),
{
    if cfg.len() == 0 {
        Map::empty()
    } else {
        let u = cfg.last();
        users_from(cfg.drop_last()).insert(
            u.username,
            EntryView { password_hash: u.password_hash, role: u.role },
        )
    }
}

/// The users an optional configuration list defines.
pub open spec fn users_from_opt(cfg: Option<Seq<crate::config::UserConfigView>>) -> Map<Seq<char>, EntryView> {
    match cfg {
        Some(c) => users_from(c),
        None => Map::empty(),
    }
}

/// What authenticating `username` with `password` gives: the user's role when the user
/// exists and the password verifies against the stored hash.
pub open spec fn authenticate_spec(
    users: Map<Seq<char>, EntryView>,
    username: Seq<char>,
    password: Seq<char>,
) -> Option<Seq<char>> {
    if users.contains_key(username) && argon2_verifies(password, users[username].password_hash) {
        Some(users[username].role)
    } else {
        None
    }
}

/// The message for adding a user whose name is taken.
pub open spec fn user_exists_message(username: Seq<char>) -> Seq<char> {
    "user '"@ + username + "' already exists"@
}

/// The message for removing a user who does not exist.
pub open spec fn user_missing_message(username: Seq<char>) -> Seq<char> {
    "user '"@ + username + "' not found"@
}

/// The prefix of the message for a password that could not be hashed.
pub open spec fn hash_failure_prefix() -> Seq<char> {
    "failed to hash password: "@
}

impl UserStore {
    /// The store is well formed: the name list names each user exactly once.
    pub closed spec fn wf(&self) -> bool {
        &&& name_texts(self.names@).no_duplicates()
        &&& name_texts(self.names@).to_set() == self.entries@.dom()
    }

    /// A store with no users.
    pub fn empty() -> (s: Self)
        ensures
            s.wf(),
            s@ == Map::<Seq<char>, EntryView>::empty(),
    {
        let s = UserStore { entries: StringHashMap::new(), names: Vec::new() };
        assert(name_texts(s.names@) =~= Seq::<Seq<char>>::empty());
        assert(name_texts(s.names@).to_set() =~= s.entries@.dom());
        assert(s@ =~= Map::<Seq<char>, EntryView>::empty());
        s
    }

    /// Whether the store has no users.
    pub fn is_empty(&self) -> (r: bool)
        requires
            self.wf(),
        ensures
            r == (self@.dom() =~= Set::<Seq<char>>::empty()),
    {
        let r = self.names.len() == 0;
        proof {
            if !r {
                assert(name_texts(self.names@).to_set().contains(name_texts(self.names@)[0]));
                assert(self@.dom().contains(name_texts(self.names@)[0]));
            } else {
                assert(name_texts(self.names@) =~= Seq::<Seq<char>>::empty());
            }
        }
        r
    }

    /// Whether a user named `username` exists.
    pub fn contains(&self, username: &str) -> (r: bool)
        ensures
            r == self@.contains_key(username@),
    {
        self.entries.contains_key(username)
    }

    /// Sets the entry of `username`, adding the name when it is new.
    fn put(&mut self, username: &str, entry: UserEntry)
        requires
            old(self).wf(),
        ensures
            final(self).wf(),
            final(self)@ == old(self)@.insert(username@, entry@),
    {
        let is_new = !self.entries.contains_key(username);
        let ghost before = name_texts(self.names@);
        self.entries.insert(username.to_owned(), entry);
        if is_new {
            self.names.push(username.to_owned());
            assert(name_texts(self.names@) =~= before.push(username@));
            assert(!before.contains(username@));
            assert forall|k: Seq<char>| #[trigger] name_texts(self.names@).contains(k) <==> (
            before.contains(k) || k == username@) by {
                if name_texts(self.names@).contains(k) {
                    let j = choose|j: int|
                        0 <= j < name_texts(self.names@).len() && #[trigger] name_texts(self.names@)[j] == k;
                    if j < before.len() {
                        assert(before[j] == k);
                    }
                }
                if before.contains(k) {
                    let j = choose|j: int| 0 <= j < before.len() && #[trigger] before[j] == k;
                    assert(name_texts(self.names@)[j] == k);
                }
                if k == username@ {
                    assert(name_texts(self.names@)[before.len() as int] == k);
                }
            }
            assert(name_texts(self.names@).to_set() =~= self.entries@.dom());
            assert(name_texts(self.names@).no_duplicates()) by {
                assert forall|i: int, j: int|
                    0 <= i < name_texts(self.names@).len() && 0 <= j < name_texts(self.names@).len()
                        && i != j implies name_texts(self.names@)[i] != name_texts(self.names@)[j] by {
                    if i < before.len() && j < before.len() {
                    } else if i < before.len() {
                        assert(before.contains(before[i]));
                    } else if j < before.len() {
                        assert(before.contains(before[j]));
                    }
                }
            }
        } else {
            assert(self.entries@.dom() =~= old(self).entries@.dom());
        }
        assert(self@ =~= old(self)@.insert(username@, entry@));
    }

    /// Removes `username`, which must exist.
    fn take_out(&mut self, username: &str)
        requires
            old(self).wf(),
            old(self)@.contains_key(username@),
        ensures
            final(self).wf(),
            final(self)@ == old(self)@.remove(username@),
    {
        let ghost before = name_texts(self.names@);
        let idx = position_of(&self.names, username);
        assert(before[idx as int] == username@);
        self.names.remove(idx);
        self.entries.remove(username);
        let ghost after = name_texts(self.names@);
        assert(after =~= before.remove(idx as int));
        assert forall|k: Seq<char>| #[trigger] after.contains(k) <==> (before.contains(k) && k != username@) by {
            if after.contains(k) {
                let j = choose|j: int| 0 <= j < after.len() && #[trigger] after[j] == k;
                if j < idx {
                    assert(before[j] == k);
                } else {
                    assert(before[j + 1] == k);
                }
            }
            if before.contains(k) && k != username@ {
                let j = choose|j: int| 0 <= j < before.len() && #[trigger] before[j] == k;
                if j < idx {
                    assert(after[j] == k);
                } else {
                    assert(j != idx);
                    assert(after[j - 1] == k);
                }
            }
        }
        assert(after.to_set() =~= self.entries@.dom());
        assert(after.no_duplicates()) by {
            assert forall|i: int, j: int|
                0 <= i < after.len() && 0 <= j < after.len() && i != j implies after[i] != after[j] by {
                let bi = if i < idx { i } else { i + 1 };
                let bj = if j < idx { j } else { j + 1 };
                assert(after[i] == before[bi]);
                assert(after[j] == before[bj]);
            }
        }
        assert(self@ =~= old(self)@.remove(username@));
    }

    /// Replaces every user with those of `users`.
    fn load(&mut self, users: &Option<Vec<UserConfig>>)
        requires
            old(self).wf(),
            old(self)@ == Map::<Seq<char>, EntryView>::empty(),
        ensures
            final(self).wf(),
            final(self)@ == users_from_opt(crate::config::opt_user_configs(*users)),
    {
        if let Some(list) = users {
            let ghost cfg = crate::config::user_configs(list@);
            let n = list.len();
            for i in 0..n
                invariant
                    n == list@.len(),
                    cfg == crate::config::user_configs(list@),
                    self.wf(),
                    self@ == users_from(cfg.take(i as int)),
            {
                assert(cfg.take(i + 1).drop_last() =~= cfg.take(i as int));
                let u = &list[i];
                self.put(
                    u.username.as_str(),
                    UserEntry { password_hash: u.password_hash.clone(), role: u.role.clone() },
                );
            }
            assert(cfg.take(n as int) =~= cfg);
        }
    }
}

/// The position of `name` in `names`, which must hold it.
fn position_of(names: &Vec<String>, name: &str) -> (idx: usize)
    requires
        name_texts(names@).contains(name@),
    ensures
        idx < names@.len(),
        names@[idx as int]@ == name@,
{
    let ghost t = name_texts(names@);
    for i in 0..names.len()
        invariant
            t == name_texts(names@),
            t.contains(name@),
            forall|j: int| 0 <= j < i ==> t[j] != name@,
    {
        if crate::text::str_eq(names[i].as_str(), name) {
            return i;
        }
    }
    proof {
        let j = choose|j: int| 0 <= j < t.len() && #[trigger] t[j] == name@;
        assert(false);
    }
    0
}

/// A store holding the users that the configuration lists (a later entry for a name
/// replaces an earlier one).
pub fn init_user_store(users: &Option<Vec<UserConfig>>) -> (s: UserStore)
    ensures
        s.wf(),
        s@ == users_from_opt(crate::config::opt_user_configs(*users)),
{
    let mut s = UserStore::empty();
    s.load(users);
    s
}

/// Replaces the users of `store` with those that the configuration lists.
pub fn reload_users(store: &mut UserStore, users: &Option<Vec<UserConfig>>)
    requires
        old(store).wf(),
    ensures
        final(store).wf(),
        final(store)@ == users_from_opt(crate::config::opt_user_configs(*users)),
{
    *store = UserStore::empty();
    store.load(users);
}

/// The role of `username` when `password` verifies against the stored hash.
pub fn authenticate(store: &UserStore, username: &str, password: &str) -> (r: Option<String>)
    ensures
        match r {
            Some(role) => authenticate_spec(store@, username@, password@) == Some(role@),
            None => authenticate_spec(store@, username@, password@) == None::<Seq<char>>,
        },
{
    match store.entries.get(username) {
        None => None,
        Some(entry) => {
            if argon2_verify(password, entry.password_hash.as_str()) {
                Some(entry.role.clone())
            } else {
                None
            }
        },
    }
}

/// Every user once, with the role.
pub fn list_users(store: &UserStore) -> (r: Vec<UserInfo>)
    requires
        store.wf(),
    ensures
        r@.len() == store@.dom().len(),
        forall|i: int| 0 <= i < r@.len() ==> store@.contains_key(#[trigger] r@[i].username@) && r@[i].role@
            == store@[r@[i].username@].role,
        forall|i: int, j: int| 0 <= i < j < r@.len() ==> r@[i].username@ != r@[j].username@,
        forall|k: Seq<char>| #[trigger] store@.contains_key(k) ==> exists|i: int| 0 <= i < r@.len() && r@[i].username@ == k,
{
    let ghost names = name_texts(store.names@);
    let mut out: Vec<UserInfo> = Vec::new();
    let n = store.names.len();
    for i in 0..n
        invariant
            n == store.names@.len(),
            names == name_texts(store.names@),
            names.no_duplicates(),
            names.to_set() == store.entries@.dom(),
            out@.len() == i,
            forall|j: int| 0 <= j < i ==> #[trigger] out@[j].username@ == names[j],
            forall|j: int| 0 <= j < i ==> #[trigger] out@[j].role@ == store.entries@[names[j]].role@,
    {
        let name = &store.names[i];
        assert(names.to_set().contains(names[i as int]));
        match store.entries.get(name.as_str()) {
            Some(e) => {
                out.push(UserInfo { username: name.clone(), role: e.role.clone() });
            },
            None => {
                assert(false);
            },
        }
    }
    proof {
        names.unique_seq_to_set();
        assert forall|k: Seq<char>| #[trigger] store@.contains_key(k) implies exists|i: int| 0 <= i < out@.len() && out@[i].username@ == k by {
            assert(names.to_set().contains(k));
            let j = choose|j: int| 0 <= j < names.len() && #[trigger] names[j] == k;
            assert(out@[j].username@ == k);
        }
        assert(store@.dom() =~= store.entries@.dom());
    }
    out
}

/// Adds `username` with the hash `hashed` (the outcome of hashing the password) and `role`:
/// a failed hash is reported as such, a taken name is refused, and otherwise the user is added.
pub fn add_user_hashed(
    store: &mut UserStore,
    username: &str,
    hashed: Result<String, String>,
    role: &str,
) -> (r: Result<(), String>)
    requires
        old(store).wf(),
    ensures
        final(store).wf(),
        match hashed {
            Err(e) => r == Err::<(), String>(e) && final(store)@ == old(store)@,
            Ok(h) => if old(store)@.contains_key(username@) {
                (r matches Err(m) && m@ == user_exists_message(username@) && final(store)@ == old(store)@)
            } else {
                r is Ok && final(store)@ == old(store)@.insert(
                    username@,
                    EntryView { password_hash: h@, role: role@ },
                )
            },
        },
{
    let hash = match hashed {
        Err(e) => return Err(e),
        Ok(h) => h,
    };
    if store.contains(username) {
        let mut m = "user '".to_owned();
        m.append(username);
        m.append("' already exists");
        return Err(m);
    }
    store.put(username, UserEntry { password_hash: hash, role: role.to_owned() });
    Ok(())
}

/// Hashes `password` and adds `username` with that hash and `role`, unless the name is taken.
/// A new name with a password of at most `0xFFFF_FFFF` bytes is always added. It fails only
/// where hashing fails (a message that starts with "failed to hash password: "), which a
/// longer password makes it do, or, for a taken name, with "user '<name>' already exists";
/// hashing comes first.
pub fn add_user(store: &mut UserStore, username: &str, password: &str, role: &str) -> (r: Result<(), String>)
    requires
        old(store).wf(),
    ensures
        final(store).wf(),
        old(store)@.contains_key(username@) ==> r is Err && final(store)@ == old(store)@,
        r is Err ==> final(store)@ == old(store)@,
        !old(store)@.contains_key(username@) && password.len() <= 0xFFFF_FFFF ==> r is Ok,
        r matches Err(m) ==> hash_failure_prefix().is_prefix_of(m@) || (old(store)@.contains_key(
            username@,
        ) && m@ == user_exists_message(username@)),
        r is Ok ==> !old(store)@.contains_key(username@) && final(store)@.dom() == old(store)@.dom().insert(
            username@,
        ) && final(store)@[username@].role == role@ && argon2_verifies(
            password@,
            final(store)@[username@].password_hash,
        ) && forall|k: Seq<char>| k != username@ && #[trigger] old(store)@.contains_key(k) ==> final(store)@[k] == old(store)@[k],
{
    let hashed = hash_password(password);
    let r = add_user_hashed(store, username, hashed, role);
    proof {
        if r is Ok {
            assert(final(store)@.dom() =~= old(store)@.dom().insert(username@));
        }
    }
    r
}

/// Removes `username`, or reports that no such user exists.
pub fn remove_user(store: &mut UserStore, username: &str) -> (r: Result<(), String>)
    requires
        old(store).wf(),
    ensures
        final(store).wf(),
        old(store)@.contains_key(username@) ==> r is Ok && final(store)@ == old(store)@.remove(username@),
        !old(store)@.contains_key(username@) ==> (r matches Err(m) && m@ == user_missing_message(
            username@,
        ) && final(store)@ == old(store)@),
{
    if !store.contains(username) {
        let mut m = "user '".to_owned();
        m.append(username);
        m.append("' not found");
        return Err(m);
    }
    store.take_out(username);
    Ok(())
}

/// Hashes `password` with Argon2 and a random salt; the hash verifies against the password,
/// and a password of at most `0xFFFF_FFFF` bytes always hashes.
pub fn hash_password(password: &str) -> (r: Result<String, String>)
    ensures
        r matches Ok(h) ==> argon2_verifies(password@, h@),
        password.len() <= 0xFFFF_FFFF ==> r is Ok,
        r matches Err(m) ==> hash_failure_prefix().is_prefix_of(m@),
{
    match argon2_hash(password) {
        Ok(h) => Ok(h),
        Err(e) => {
            let mut m = "failed to hash password: ".to_owned();
            m.append(e.as_str());
            assert(hash_failure_prefix().is_prefix_of(m@)) by {
                assert(m@.subrange(0, hash_failure_prefix().len() as int) =~= hash_failure_prefix());
            }
            Err(m)
        },
    }
}

/// Compares two byte strings in time that depends only on their lengths: true exactly when
/// they are equal.
pub fn constant_time_eq(a: &[u8], b: &[u8]) -> (r: bool)
    ensures
        r == (a@ == b@),
{
    if a.len() != b.len() {
        return false;
    }
    let n = a.len();
    let mut diff: u8 = 0;
    for i in 0..n
        invariant
            n == a@.len(),
            n == b@.len(),
            (diff == 0) <==> (forall|j: int| 0 <= j < i ==> a@[j] == b@[j]),
    {
        let x = a[i];
        let y = b[i];
        let d0 = diff;
        diff = diff | (x ^ y);
        assert((d0 | (x ^ y)) == 0 <==> (d0 == 0 && x == y)) by (bit_vector);
        assert((diff == 0) <==> (forall|j: int| 0 <= j < i + 1 ==> a@[j] == b@[j])) by {
            if diff == 0 {
                assert forall|j: int| 0 <= j < i + 1 implies a@[j] == b@[j] by {
                    if j < i {
                    }
                }
            }
        }
    }
    assert(diff == 0 <==> a@ =~= b@);
    diff == 0
}

/// A user added with a password can log in with that password and gets the role given;
/// a user removed can no longer log in.
pub proof fn lemma_added_user_authenticates(
    after: Map<Seq<char>, EntryView>,
    username: Seq<char>,
    password: Seq<char>,
    role: Seq<char>,
)
    requires
        after.dom().contains(username),
        after[username].role == role,
        argon2_verifies(password, after[username].password_hash),
    ensures
        authenticate_spec(after, username, password) == Some(role),
        authenticate_spec(after.remove(username), username, password) == None::<Seq<char>>,
{
}

} // verus!

//! In-memory stores. Each keeps its entries in a `Vec` with at most one entry
//! per key; the models of `data_stores` are read off that vector.

use vstd::prelude::*;
use crate::data_stores::{BannedTokenStore, TwoFACodeStore, UserStore};
use crate::domain::{
    same_text,    BannedTokenStoreError, Email, LoginAttemptId, Password, TwoFACode, TwoFACodeStoreError, User,
    UserStoreError,
};

verus! {

/// Accounts kept in memory, one per address.
pub struct HashmapUserStore {
    users: Vec<User>,
}

/// No two entries of `s` share an address.
pub open spec fn unique_emails(s: Seq<User>) -> bool {
    forall|i: int, j: int|
        0 <= i < s.len() && 0 <= j < s.len() && i != j ==> #[trigger] s[i].email@ != #[trigger] s[j].email@
}

/// The accounts of `s`, keyed by address.
pub open spec fn accounts_of(s: Seq<User>) -> Map<Seq<char>, User> {
    Map::new(
        |k: Seq<char>| exists|i: int| 0 <= i < s.len() && (#[trigger] s[i]).email@ == k,
        |k: Seq<char>| s[choose|i: int| 0 <= i < s.len() && (#[trigger] s[i]).email@ == k],
    )
}

proof fn lemma_accounts_lookup(s: Seq<User>, i: int)
    requires
        unique_emails(s),
        0 <= i < s.len(),
    ensures
        accounts_of(s).contains_key(s[i].email@),
        accounts_of(s)[s[i].email@] == s[i],
{
    let k = s[i].email@;
    assert(accounts_of(s).contains_key(k));
    let j = choose|j: int| 0 <= j < s.len() && (#[trigger] s[j]).email@ == k;
    assert(s[j].email@ == k);
}

proof fn lemma_accounts_push(s: Seq<User>, u: User)
    requires
        unique_emails(s),
        !accounts_of(s).contains_key(u.email@),
    ensures
        unique_emails(s.push(u)),
        accounts_of(s.push(u)) == accounts_of(s).insert(u.email@, u),
{
    let t = s.push(u);
    assert forall|i: int| 0 <= i < s.len() implies #[trigger] s[i].email@ != u.email@ by {
        lemma_accounts_lookup(s, i);
    }
    assert(unique_emails(t)) by {
        assert forall|i: int, j: int|
            0 <= i < t.len() && 0 <= j < t.len() && i != j implies #[trigger] t[i].email@
            != #[trigger] t[j].email@ by {
            if i < s.len() && j < s.len() {
                assert(t[i] == s[i] && t[j] == s[j]);
            } else if i < s.len() {
                assert(t[i] == s[i]);
            } else {
                assert(t[j] == s[j]);
            }
        }
    }
    let m = accounts_of(s).insert(u.email@, u);
    assert forall|k: Seq<char>| #[trigger] m.contains_key(k) implies accounts_of(t).contains_key(k)
        && accounts_of(t)[k] == m[k] by {
        if k == u.email@ {
            lemma_accounts_lookup(t, s.len() as int);
        } else {
            let i = choose|i: int| 0 <= i < s.len() && (#[trigger] s[i]).email@ == k;
            lemma_accounts_lookup(s, i);
            assert(t[i] == s[i]);
            lemma_accounts_lookup(t, i);
        }
    }
    assert forall|k: Seq<char>| #[trigger] accounts_of(t).contains_key(k) implies m.contains_key(
        k,
    ) by {
        let i = choose|i: int| 0 <= i < t.len() && (#[trigger] t[i]).email@ == k;
        if i < s.len() {
            assert(t[i] == s[i]);
            assert(accounts_of(s).contains_key(k));
        }
    }
    assert(accounts_of(t) =~= m);
}

/// What `add_user` answers on accounts `m`.
pub open spec fn add_user_result(m: Map<Seq<char>, User>, user: User) -> Result<(), UserStoreError> {
    if m.contains_key(user.email@) {
        Err(UserStoreError::UserAlreadyExists)
    } else {
        Ok(())
    }
}

/// The accounts after `add_user` on accounts `m`.
pub open spec fn add_user_model(m: Map<Seq<char>, User>, user: User) -> Map<Seq<char>, User> {
    if m.contains_key(user.email@) {
        m
    } else {
        m.insert(user.email@, user)
    }
}

/// What `validate_user` answers on accounts `m`.
pub open spec fn validate_user_result(
    m: Map<Seq<char>, User>,
    email: Seq<char>,
    password: Seq<char>,
) -> Result<(), UserStoreError> {
    if !m.contains_key(email) {
        Err(UserStoreError::UserNotFound)
    } else if m[email].password@ == password {
        Ok(())
    } else {
        Err(UserStoreError::InvalidCredentials)
    }
}

impl HashmapUserStore {
    pub closed spec fn wf(&self) -> bool {
        unique_emails(self.users@)
    }

    pub closed spec fn model(&self) -> Map<Seq<char>, User> {
        accounts_of(self.users@)
    }

    /// An empty store.
    pub fn new() -> (r: HashmapUserStore)
        ensures
            r.wf(),
            r.model() == Map::<Seq<char>, User>::empty(),
    {
        let r = HashmapUserStore { users: Vec::new() };
        assert(r.model() =~= Map::<Seq<char>, User>::empty());
        r
    }

    /// The position of the account of `email`, if there is one.
    fn find(&self, email: &str) -> (r: Option<usize>)
        requires
            self.wf(),
        ensures
            match r {
                Some(i) => i < self.users@.len() && self.users@[i as int].email@ == email@
                    && self.model().contains_key(email@) && self.model()[email@]
                    == self.users@[i as int],
                None => !self.model().contains_key(email@),
            },
    {
        let mut i: usize = 0;
        while i < self.users.len()
            invariant
                self.wf(),
                i <= self.users@.len(),
                forall|j: int| 0 <= j < i ==> (#[trigger] self.users@[j]).email@ != email@,
            decreases self.users@.len() - i,
        {
            if same_text(&self.users[i].email, email) {
                proof {
                    lemma_accounts_lookup(self.users@, i as int);
                }
                return Some(i);
            }
            i = i + 1;
        }
        None
    }

    /// Inserts `user` unless an account with its address exists.
    pub fn add_user(&mut self, user: User) -> (r: Result<(), UserStoreError>)
        requires
            old(self).wf(),
        ensures
            final(self).wf(),
            old(self).model().contains_key(user.email@) <==> r == Err::<(), UserStoreError>(
                UserStoreError::UserAlreadyExists,
            ),
            !old(self).model().contains_key(user.email@) <==> r is Ok,
            r is Ok ==> final(self).model() == old(self).model().insert(user.email@, user),
            r is Err ==> final(self).model() == old(self).model(),
            r == add_user_result(old(self).model(), user),
            final(self).model() == add_user_model(old(self).model(), user),
    {
        if self.find(user.email.as_str()).is_some() {
            Err(UserStoreError::UserAlreadyExists)
        } else {
            proof {
                lemma_accounts_push(self.users@, user);
            }
            self.users.push(user);
            Ok(())
        }
    }

    /// A copy of the account of `email`.
    pub fn get_user(&self, email: &str) -> (r: Result<User, UserStoreError>)
        requires
            self.wf(),
        ensures
            self.model().contains_key(email@) <==> r is Ok,
            r matches Ok(u) ==> u == self.model()[email@],
            r matches Err(e) ==> e == UserStoreError::UserNotFound,
    {
        match self.find(email) {
            Some(i) => {
                let user = &self.users[i];
                Ok(User::new(user.email.clone(), user.password.clone(), user.requires_2fa))
            },
            None => Err(UserStoreError::UserNotFound),
        }
    }

    /// `Ok` when `password` is the one stored for `email`; `UserNotFound` when
    /// there is no such account, `InvalidCredentials` when the password differs.
    pub fn validate_user(&self, email: &str, password: &str) -> (r: Result<(), UserStoreError>)
        requires
            self.wf(),
        ensures
            r is Ok <==> self.model().contains_key(email@) && self.model()[email@].password@
                == password@,
            r == Err::<(), UserStoreError>(UserStoreError::UserNotFound) <==> !self.model().contains_key(
                email@,
            ),
            r == Err::<(), UserStoreError>(UserStoreError::InvalidCredentials) <==> self.model().contains_key(
                email@,
            ) && self.model()[email@].password@ != password@,
            r == validate_user_result(self.model(), email@, password@),
    {
        match self.find(email) {
            Some(i) => {
                if same_text(&self.users[i].password, password) {
                    Ok(())
                } else {
                    Err(UserStoreError::InvalidCredentials)
                }
            },
            None => Err(UserStoreError::UserNotFound),
        }
    }
}

impl Default for HashmapUserStore {
    fn default() -> (r: HashmapUserStore)
        ensures
            r.wf(),
            r.model() == Map::<Seq<char>, User>::empty(),
    {
        HashmapUserStore::new()
    }
}

impl UserStore for HashmapUserStore {
    open spec fn inv(&self) -> bool {
        self.wf()
    }

    open spec fn accounts(&self) -> Map<Seq<char>, User> {
        self.model()
    }

    open spec fn infallible(&self) -> bool {
        true
    }

    fn add_user(&mut self, user: User) -> (r: Result<(), UserStoreError>) {
        HashmapUserStore::add_user(self, user)
    }

    fn get_user(&self, email: &Email) -> (r: Result<User, UserStoreError>) {
        HashmapUserStore::get_user(self, email.as_str())
    }

    fn validate_user(&self, email: &Email, password: &Password) -> (r: Result<(), UserStoreError>) {
        HashmapUserStore::validate_user(self, email.as_str(), password.as_str())
    }
}

/// Token strings banned in memory.
pub struct HashsetBannedTokenStore {
    banned_tokens: Vec<String>,
}

impl HashsetBannedTokenStore {
    pub closed spec fn model(&self) -> Set<Seq<char>> {
        Set::new(
            |t: Seq<char>|
                exists|i: int|
                    0 <= i < self.banned_tokens@.len() && (#[trigger] self.banned_tokens@[i])@ == t,
        )
    }

    /// An empty store.
    pub fn new() -> (r: HashsetBannedTokenStore)
        ensures
            r.model() == Set::<Seq<char>>::empty(),
    {
        let r = HashsetBannedTokenStore { banned_tokens: Vec::new() };
        assert(r.model() =~= Set::<Seq<char>>::empty());
        r
    }

    /// Whether `token` is banned.
    pub fn contains(&self, token: &str) -> (r: bool)
        ensures
            r == self.model().contains(token@),
    {
        let mut i: usize = 0;
        while i < self.banned_tokens.len()
            invariant
                i <= self.banned_tokens@.len(),
                forall|j: int| 0 <= j < i ==> (#[trigger] self.banned_tokens@[j])@ != token@,
            decreases self.banned_tokens@.len() - i,
        {
            if same_text(&self.banned_tokens[i], token) {
                return true;
            }
            i = i + 1;
        }
        false
    }

    /// Bans `token`; a token already banned stays banned.
    pub fn ban(&mut self, token: &str)
        ensures
            final(self).model() == old(self).model().insert(token@),
    {
        if !self.contains(token) {
            let ghost before = self.banned_tokens@;
            self.banned_tokens.push(String::from_str(token));
            assert forall|t: Seq<char>| #[trigger] self.model().contains(t) implies old(
                self,
            ).model().insert(token@).contains(t) by {
                let i = choose|i: int|
                    0 <= i < self.banned_tokens@.len() && (#[trigger] self.banned_tokens@[i])@ == t;
                if i < before.len() {
                    assert(before[i] == self.banned_tokens@[i]);
                }
            }
            assert forall|t: Seq<char>| #[trigger] old(self).model().contains(t) implies self.model().contains(t) by {
                let i = choose|i: int| 0 <= i < before.len() && (#[trigger] before[i])@ == t;
                assert(before[i] == self.banned_tokens@[i]);
            }
            assert(self.banned_tokens@[before.len() as int]@ == token@);
        }
        assert(self.model() =~= old(self).model().insert(token@));
    }
}

impl Default for HashsetBannedTokenStore {
    fn default() -> (r: HashsetBannedTokenStore)
        ensures
            r.model() == Set::<Seq<char>>::empty(),
    {
        HashsetBannedTokenStore::new()
    }
}

impl BannedTokenStore for HashsetBannedTokenStore {
    open spec fn inv(&self) -> bool {
        true
    }

    open spec fn banned(&self) -> Set<Seq<char>> {
        self.model()
    }

    open spec fn infallible(&self) -> bool {
        true
    }

    fn ban_token(&mut self, token: &str) -> (r: Result<(), BannedTokenStoreError>)
        ensures
            r is Ok,
            final(self).model() == old(self).model().insert(token@),
    {
        self.ban(token);
        Ok(())
    }

    fn is_token_banned(&self, token: &str) -> (r: Result<bool, BannedTokenStoreError>)
        ensures
            r == Ok::<bool, BannedTokenStoreError>(self.model().contains(token@)),
    {
        Ok(self.contains(token))
    }
}

/// One pending challenge: address, login attempt id and code.
pub struct PendingChallenge {
    pub email: Email,
    pub login_attempt_id: LoginAttemptId,
    pub code: TwoFACode,
}

/// No two challenges of `s` share an address.
pub open spec fn unique_challenges(s: Seq<PendingChallenge>) -> bool {
    forall|i: int, j: int|
        0 <= i < s.len() && 0 <= j < s.len() && i != j ==> #[trigger] s[i].email@ != #[trigger] s[j].email@
}

pub open spec fn challenge_view(c: PendingChallenge) -> (Seq<char>, Seq<char>) {
    (c.login_attempt_id@, c.code@)
}

/// The challenges of `s`, keyed by address.
pub open spec fn challenges_of(s: Seq<PendingChallenge>) -> Map<Seq<char>, (Seq<char>, Seq<char>)> {
    Map::new(
        |k: Seq<char>| exists|i: int| 0 <= i < s.len() && (#[trigger] s[i]).email@ == k,
        |k: Seq<char>|
            challenge_view(s[choose|i: int| 0 <= i < s.len() && (#[trigger] s[i]).email@ == k]),
    )
}

proof fn lemma_challenges_lookup(s: Seq<PendingChallenge>, i: int)
    requires
        unique_challenges(s),
        0 <= i < s.len(),
    ensures
        challenges_of(s).contains_key(s[i].email@),
        challenges_of(s)[s[i].email@] == challenge_view(s[i]),
{
    let k = s[i].email@;
    assert(challenges_of(s).contains_key(k));
    let j = choose|j: int| 0 <= j < s.len() && (#[trigger] s[j]).email@ == k;
    assert(s[j].email@ == k);
}

/// `t` is `s` with the entry at `i` replaced, or with an entry pushed when `i`
/// is the length of `s`; the entry at `i` of `t` carries the key `k`.
proof fn lemma_challenges_put(s: Seq<PendingChallenge>, t: Seq<PendingChallenge>, i: int)
    requires
        unique_challenges(s),
        0 <= i <= s.len(),
        t.len() == if i == s.len() { s.len() + 1 } else { s.len() + 0 },
        forall|j: int| 0 <= j < s.len() && j != i ==> t[j] == s[j],
        i < s.len() ==> t[i].email@ == s[i].email@,
        i == s.len() ==> !challenges_of(s).contains_key(t[i].email@),
    ensures
        unique_challenges(t),
        challenges_of(t) == challenges_of(s).insert(t[i].email@, challenge_view(t[i])),
{
    let key = t[i].email@;
    if i == s.len() {
        assert forall|j: int| 0 <= j < s.len() implies #[trigger] s[j].email@ != key by {
            lemma_challenges_lookup(s, j);
        }
    }
    assert forall|a: int, b: int|
        0 <= a < t.len() && 0 <= b < t.len() && a != b implies #[trigger] t[a].email@
        != #[trigger] t[b].email@ by {
        if a != i && b != i {
            assert(t[a] == s[a] && t[b] == s[b]);
        } else if a != i {
            assert(t[a] == s[a]);
        } else {
            assert(t[b] == s[b]);
        }
    }
    let m = challenges_of(s).insert(key, challenge_view(t[i]));
    assert forall|k: Seq<char>| #[trigger] m.contains_key(k) implies challenges_of(t).contains_key(k)
        && challenges_of(t)[k] == m[k] by {
        if k == key {
            lemma_challenges_lookup(t, i);
        } else {
            let j = choose|j: int| 0 <= j < s.len() && (#[trigger] s[j]).email@ == k;
            lemma_challenges_lookup(s, j);
            assert(t[j] == s[j]);
            lemma_challenges_lookup(t, j);
        }
    }
    assert forall|k: Seq<char>| #[trigger] challenges_of(t).contains_key(k) implies m.contains_key(
        k,
    ) by {
        let j = choose|j: int| 0 <= j < t.len() && (#[trigger] t[j]).email@ == k;
        if j != i {
            assert(t[j] == s[j]);
            assert(challenges_of(s).contains_key(k));
        }
    }
    assert(challenges_of(t) =~= m);
}

proof fn lemma_challenges_remove(s: Seq<PendingChallenge>, i: int)
    requires
        unique_challenges(s),
        0 <= i < s.len(),
    ensures
        unique_challenges(s.remove(i)),
        challenges_of(s.remove(i)) == challenges_of(s).remove(s[i].email@),
{
    let t = s.remove(i);
    let key = s[i].email@;
    assert forall|a: int, b: int|
        0 <= a < t.len() && 0 <= b < t.len() && a != b implies #[trigger] t[a].email@
        != #[trigger] t[b].email@ by {
        let a2 = if a < i { a } else { a + 1 };
        let b2 = if b < i { b } else { b + 1 };
        assert(t[a] == s[a2] && t[b] == s[b2]);
    }
    let m = challenges_of(s).remove(key);
    assert forall|k: Seq<char>| #[trigger] m.contains_key(k) implies challenges_of(t).contains_key(k)
        && challenges_of(t)[k] == m[k] by {
        let j = choose|j: int| 0 <= j < s.len() && (#[trigger] s[j]).email@ == k;
        lemma_challenges_lookup(s, j);
        let j2 = if j < i { j } else { j - 1 };
        assert(t[j2] == s[j]);
        lemma_challenges_lookup(t, j2);
    }
    assert forall|k: Seq<char>| #[trigger] challenges_of(t).contains_key(k) implies m.contains_key(
        k,
    ) by {
        let j = choose|j: int| 0 <= j < t.len() && (#[trigger] t[j]).email@ == k;
        let j2 = if j < i { j } else { j + 1 };
        assert(t[j] == s[j2]);
        assert(challenges_of(s).contains_key(k));
    }
    assert(challenges_of(t) =~= m);
}

/// Pending second-factor challenges kept in memory, at most one per address.
pub struct HashmapTwoFACodeStore {
    codes: Vec<PendingChallenge>,
}

impl HashmapTwoFACodeStore {
    pub closed spec fn wf(&self) -> bool {
        unique_challenges(self.codes@)
    }

    pub closed spec fn model(&self) -> Map<Seq<char>, (Seq<char>, Seq<char>)> {
        challenges_of(self.codes@)
    }

    /// An empty store.
    pub fn new() -> (r: HashmapTwoFACodeStore)
        ensures
            r.wf(),
            r.model() == Map::<Seq<char>, (Seq<char>, Seq<char>)>::empty(),
    {
        let r = HashmapTwoFACodeStore { codes: Vec::new() };
        assert(r.model() =~= Map::<Seq<char>, (Seq<char>, Seq<char>)>::empty());
        r
    }

    fn find(&self, email: &Email) -> (r: Option<usize>)
        requires
            self.wf(),
        ensures
            match r {
                Some(i) => i < self.codes@.len() && self.codes@[i as int].email@ == email@
                    && self.model().contains_key(email@) && self.model()[email@] == challenge_view(
                    self.codes@[i as int],
                ),
                None => !self.model().contains_key(email@),
            },
    {
        let key = email.as_str();
        let mut i: usize = 0;
        while i < self.codes.len()
            invariant
                self.wf(),
                key@ == email@,
                i <= self.codes@.len(),
                forall|j: int| 0 <= j < i ==> (#[trigger] self.codes@[j]).email@ != email@,
            decreases self.codes@.len() - i,
        {
            let stored = String::from_str(self.codes[i].email.as_str());
            if same_text(&stored, key) {
                proof {
                    lemma_challenges_lookup(self.codes@, i as int);
                }
                return Some(i);
            }
            i = i + 1;
        }
        None
    }

    /// Stores a challenge for `email`, replacing the pending one if any.
    pub fn put(&mut self, email: Email, login_attempt_id: LoginAttemptId, code: TwoFACode)
        requires
            old(self).wf(),
        ensures
            final(self).wf(),
            final(self).model() == old(self).model().insert(email@, (login_attempt_id@, code@)),
    {
        let entry = PendingChallenge { email, login_attempt_id, code };
        match self.find(&entry.email) {
            Some(i) => {
                let ghost before = self.codes@;
                self.codes.set(i, entry);
                proof {
                    lemma_challenges_put(before, self.codes@, i as int);
                }
            },
            None => {
                let ghost before = self.codes@;
                self.codes.push(entry);
                proof {
                    lemma_challenges_put(before, self.codes@, before.len() as int);
                }
            },
        }
    }

    /// Drops the pending challenge of `email`; `false` when there was none.
    pub fn remove(&mut self, email: &Email) -> (r: bool)
        requires
            old(self).wf(),
        ensures
            final(self).wf(),
            r == old(self).model().contains_key(email@),
            final(self).model() == old(self).model().remove(email@),
    {
        match self.find(email) {
            Some(i) => {
                proof {
                    lemma_challenges_remove(self.codes@, i as int);
                }
                self.codes.remove(i);
                true
            },
            None => {
                assert(self.model() =~= self.model().remove(email@));
                false
            },
        }
    }

    /// A copy of the pending challenge of `email`.
    pub fn get(&self, email: &Email) -> (r: Option<(LoginAttemptId, TwoFACode)>)
        requires
            self.wf(),
        ensures
            self.model().contains_key(email@) <==> r is Some,
            r matches Some((id, code)) ==> self.model()[email@] == (id@, code@),
    {
        match self.find(email) {
            Some(i) => Some((self.codes[i].login_attempt_id.clone(), self.codes[i].code.clone())),
            None => None,
        }
    }
}

impl Default for HashmapTwoFACodeStore {
    fn default() -> (r: HashmapTwoFACodeStore)
        ensures
            r.wf(),
            r.model() == Map::<Seq<char>, (Seq<char>, Seq<char>)>::empty(),
    {
        HashmapTwoFACodeStore::new()
    }
}

impl TwoFACodeStore for HashmapTwoFACodeStore {
    open spec fn inv(&self) -> bool {
        self.wf()
    }

    open spec fn codes(&self) -> Map<Seq<char>, (Seq<char>, Seq<char>)> {
        self.model()
    }

    open spec fn infallible(&self) -> bool {
        true
    }

    fn add_code(&mut self, email: Email, login_attempt_id: LoginAttemptId, code: TwoFACode) -> (r:
        Result<(), TwoFACodeStoreError>)
        ensures
            r is Ok,
            final(self).model() == old(self).model().insert(email@, (login_attempt_id@, code@)),
    {
        self.put(email, login_attempt_id, code);
        Ok(())
    }

    fn remove_code(&mut self, email: &Email) -> (r: Result<(), TwoFACodeStoreError>)
        ensures
            r is Ok <==> old(self).model().contains_key(email@),
            r is Err ==> r == Err::<(), TwoFACodeStoreError>(
                TwoFACodeStoreError::LoginAttemptIdNotFound,
            ),
            final(self).model() == old(self).model().remove(email@),
    {
        if self.remove(email) {
            Ok(())
        } else {
            Err(TwoFACodeStoreError::LoginAttemptIdNotFound)
        }
    }

    fn get_code(&self, email: &Email) -> (r: Result<(LoginAttemptId, TwoFACode), TwoFACodeStoreError>)
        ensures
            r is Ok <==> self.model().contains_key(email@),
            r matches Ok((id, code)) ==> self.model()[email@] == (id@, code@),
            r matches Err(e) ==> e == TwoFACodeStoreError::LoginAttemptIdNotFound,
    {
        match self.get(email) {
            Some(found) => Ok(found),
            None => Err(TwoFACodeStoreError::LoginAttemptIdNotFound),
        }
    }
}

} // verus!

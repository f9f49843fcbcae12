//! Logging in: how a login name is normalised, which stored logins it may
//! stand for, and the check of the password against the stored hash.
use vstd::prelude::*;

use crate::clock::{
    bcrypt_verify_of, hash_password, lower_of, lowercased, password_matches, trim_of, trimmed,
    utc_now_rfc3339,
};
use crate::occupancy::MAX_ROWS;
use crate::records::UserRecord;
use crate::sessions::UserProfile;
use crate::store::{ArchiveDatabase, ArchiveError};
use crate::text::str_eq;

verus! {

/// The place of the first `c` in `s`, or its length when there is none.
pub open spec fn first_index_of(s: Seq<char>, c: char) -> int
    decreases s.len(),
{
    if s.len() == 0 {
        0
    } else if s[0] == c {
        0
    } else {
        1 + first_index_of(s.drop_first(), c)
    }
}

proof fn lemma_first_index_of(s: Seq<char>, c: char)
    ensures
        0 <= first_index_of(s, c) <= s.len(),
        forall|i: int| 0 <= i < first_index_of(s, c) ==> s[i] != c,
        first_index_of(s, c) < s.len() ==> s[first_index_of(s, c)] == c,
    decreases s.len(),
{
    if s.len() > 0 && s[0] != c {
        lemma_first_index_of(s.drop_first(), c);
        assert forall|i: int| 0 <= i < first_index_of(s, c) implies s[i] != c by {
            if i > 0 {
                assert(s[i] == s.drop_first()[i - 1]);
            }
        }
    }
}

/// How a login name is compared: trimmed and in lower case.
pub open spec fn normalized_login(login: Seq<char>) -> Seq<char> {
    lower_of(trim_of(login))
}

/// The stored logins a normalised name may stand for, in the order they are
/// tried: the name itself; then, for a name with `@`, the part before it,
/// else any login that is the name followed by `@` (flagged as a prefix).
pub open spec fn login_terms(n: Seq<char>) -> Seq<(Seq<char>, bool)> {
    let p = first_index_of(n, '@');
    if p < n.len() {
        seq![(n, false), (n.take(p), false)]
    } else {
        seq![(n, false), (n + "@"@, true)]
    }
}

/// User `u` is found by term `t`: its lower-case login is the term, or,
/// for a prefix term, starts with it.
pub open spec fn user_found_by(u: UserRecord, t: (Seq<char>, bool)) -> bool {
    let l = lower_of(u.login@);
    if t.1 {
        t.0.len() <= l.len() && l.take(t.0.len() as int) == t.0
    } else {
        l == t.0
    }
}

/// The first user from row `i` on that term `t` finds.
pub open spec fn first_found_from(users: Seq<UserRecord>, t: (Seq<char>, bool), i: int) -> Option<int>
    decreases users.len() - i,
{
    if i < 0 || i >= users.len() {
        None
    } else if user_found_by(users[i], t) {
        Some(i)
    } else {
        first_found_from(users, t, i + 1)
    }
}

/// What trying the terms from the `k`-th on gives: the row of the first
/// found user whose hash matches the password, none, or a failure when a
/// stored hash cannot be read. A found user whose hash does not match
/// passes the turn to the next term.
pub open spec fn login_outcome(
    users: Seq<UserRecord>,
    terms: Seq<(Seq<char>, bool)>,
    password: Seq<char>,
    k: int,
) -> Result<Option<int>, ()>
    decreases terms.len() - k,
{
    if k < 0 || k >= terms.len() {
        Ok(None)
    } else {
        match first_found_from(users, terms[k], 0) {
            None => login_outcome(users, terms, password, k + 1),
            Some(i) => match bcrypt_verify_of(password, users[i].password_hash@) {
                None => Err(()),
                Some(true) => Ok(Some(i)),
                Some(false) => login_outcome(users, terms, password, k + 1),
            },
        }
    }
}

/// The profile of user `u`.
pub open spec fn profile_of(p: UserProfile, u: UserRecord) -> bool {
    &&& p.id == u.id
    &&& p.name@ == u.name@
    &&& p.login@ == u.login@
    &&& p.role@ == u.role@
}

impl ArchiveDatabase {
    /// The first user from row 0 that term (`text`, `prefix`) finds.
    fn find_user(&self, text: &str, prefix: bool) -> (r: Option<usize>)
        ensures
            r matches Some(i) ==> i < self.users@.len() && first_found_from(self.users@, (text@, prefix), 0)
                == Some(i as int),
            r is None ==> first_found_from(self.users@, (text@, prefix), 0) is None,
    {
        let ghost t = (text@, prefix);
        let mut i: usize = 0;
        while i < self.users.len()
            invariant
                t == (text@, prefix),
                0 <= i <= self.users@.len(),
                first_found_from(self.users@, t, 0) == first_found_from(self.users@, t, i as int),
            decreases self.users@.len() - i,
        {
            let l = lowercased(self.users[i].login.as_str());
            let found = if prefix {
                let n = text.unicode_len();
                if n <= l.as_str().unicode_len() {
                    let head = l.as_str().substring_char(0, n);
                    assert(head@ == l@.take(n as int));
                    str_eq(head, text)
                } else {
                    false
                }
            } else {
                str_eq(l.as_str(), text)
            };
            assert(found == user_found_by(self.users@[i as int], t));
            if found {
                return Some(i);
            }
            i = i + 1;
        }
        None
    }

    /// Checks a login and password: the name is trimmed and put in lower
    /// case, the terms of [`login_terms`] are tried in turn, and the first
    /// found user whose stored hash matches the password is logged in.
    pub fn verify_login(&self, login: &str, password: &str) -> (r: Result<Option<UserProfile>, ArchiveError>)
        ensures
            normalized_login(login@).len() == 0 ==> r == Ok::<Option<UserProfile>, ArchiveError>(None),
            normalized_login(login@).len() > 0 ==> match login_outcome(
                self.users@,
                login_terms(normalized_login(login@)),
                password@,
                0,
            ) {
                Err(()) => r == Err::<Option<UserProfile>, ArchiveError>(ArchiveError::StorageFailure),
                Ok(None) => r == Ok::<Option<UserProfile>, ArchiveError>(None),
                Ok(Some(i)) => r matches Ok(Some(p)) && profile_of(p, self.users@[i]),
            },
    {
        let t = trimmed(login);
        let n = lowercased(t.as_str());
        let len = n.as_str().unicode_len();
        if len == 0 {
            return Ok(None);
        }
        let mut at: usize = 0;
        while at < len && n.as_str().get_char(at) != '@'
            invariant
                len == n@.len(),
                0 <= at <= len,
                forall|i: int| 0 <= i < at ==> n@[i] != '@',
            decreases len - at,
        {
            at = at + 1;
        }
        proof {
            lemma_first_index_of(n@, '@');
            let p = first_index_of(n@, '@');
            if p < at {
                assert(n@[p] == '@');
            }
            if at < p {
                assert(n@[at as int] != '@');
            }
            assert(at == p);
        }
        let mut terms: Vec<(String, bool)> = Vec::new();
        terms.push((n.clone(), false));
        if at < len {
            let base = n.as_str().substring_char(0, at).to_string();
            proof {
                assert(base@ == n@.take(at as int));
            }
            terms.push((base, false));
        } else {
            let pattern = n.clone().concat("@");
            terms.push((pattern, true));
        }
        let ghost spec_terms = login_terms(n@);
        assert(terms@.len() == 2);
        assert(terms@[0].0@ == spec_terms[0].0 && terms@[0].1 == spec_terms[0].1);
        assert(terms@[1].0@ == spec_terms[1].0 && terms@[1].1 == spec_terms[1].1);
        let mut k: usize = 0;
        while k < terms.len()
            invariant
                n@ == normalized_login(login@),
                n@.len() > 0,
                spec_terms == login_terms(n@),
                0 <= k <= terms@.len(),
                terms@.len() == spec_terms.len(),
                forall|j: int|
                    0 <= j < terms@.len() ==> (#[trigger] terms@[j]).0@ == spec_terms[j].0
                        && terms@[j].1 == spec_terms[j].1,
                login_outcome(self.users@, spec_terms, password@, 0) == login_outcome(
                    self.users@,
                    spec_terms,
                    password@,
                    k as int,
                ),
            decreases terms@.len() - k,
        {
            let term = &terms[k];
            assert(term.0@ == spec_terms[k as int].0 && term.1 == spec_terms[k as int].1);
            assert((term.0@, term.1) == spec_terms[k as int]);
            match self.find_user(term.0.as_str(), term.1) {
                Some(i) => {
                    let u = &self.users[i];
                    match password_matches(password, u.password_hash.as_str()) {
                        None => {
                            return Err(ArchiveError::StorageFailure);
                        },
                        Some(true) => {
                            return Ok(
                                Some(
                                    UserProfile {
                                        id: u.id,
                                        name: u.name.clone(),
                                        login: u.login.clone(),
                                        role: u.role.clone(),
                                    },
                                ),
                            );
                        },
                        Some(false) => {},
                    }
                },
                None => {},
            }
            k = k + 1;
        }
        Ok(None)
    }

    /// Makes sure the configured administrator can log in: the name is
    /// normalised; the first user it finds (by the name, or the name
    /// followed by `@`) gets that login and a new hash, or a new
    /// administrator is added; and when the name is not `admin`, the stale
    /// `admin` account is removed.
    #[verifier::spinoff_prover]
    pub fn ensure_default_admin(&mut self, login: &str, password: &str) -> (r: Result<(), ArchiveError>)
        requires
            old(self).wf(),
        ensures
            final(self).wf(),
            r is Err ==> *final(self) == *old(self),
            r is Err ==> r == Err::<(), ArchiveError>(ArchiveError::StorageFailure),
            normalized_login(login@).len() == 0 ==> r is Ok && *final(self) == *old(self),
            r is Ok && normalized_login(login@).len() > 0 ==> {
                let n = normalized_login(login@);
                &&& exists|j: int|
                    0 <= j < final(self).users@.len() && #[trigger] final(self).users@[j].login@ == n
                &&& forall|j: int|
                    0 <= j < final(self).users@.len() && (#[trigger] final(self).users@[j]).login@
                        == "admin"@ ==> n == "admin"@
                &&& forall|j: int|
                    0 <= j < final(self).users@.len() ==> old(self).users@.contains(
                        #[trigger] final(self).users@[j],
                    ) || final(self).users@[j].login@ == n
                &&& forall|i: int|
                    0 <= i < old(self).users@.len() && first_found_from(old(self).users@, (n, false), 0)
                        != Some(i) && first_found_from(old(self).users@, (n + "@"@, true), 0) != Some(i)
                        && (n == "admin"@ || old(self).users@[i].login@ != "admin"@)
                        ==> final(self).users@.contains(#[trigger] old(self).users@[i])
            },
            *final(self) == (ArchiveDatabase {
                users: final(self).users,
                next_user_id: final(self).next_user_id,
                ..*old(self)
            }),
    {
        let t = trimmed(login);
        let n = lowercased(t.as_str());
        if n.as_str().unicode_len() == 0 {
            return Ok(());
        }
        let pattern = n.clone().concat("@");
        let exact = self.find_user(n.as_str(), false);
        let found = match exact {
            Some(i) => Some(i),
            None => self.find_user(pattern.as_str(), true),
        };
        let hash = match hash_password(password) {
            Some(h) => h,
            None => {
                return Err(ArchiveError::StorageFailure);
            },
        };
        let ghost old_db = *self;
        match found {
            Some(i) => {
                self.users[i].login = n.clone();
                self.users[i].password_hash = hash;
            },
            None => {
                if self.next_user_id == i64::MAX || self.users.len() >= MAX_ROWS as usize {
                    return Err(ArchiveError::StorageFailure);
                }
                let now = utc_now_rfc3339();
                self.users.push(
                    UserRecord {
                        id: self.next_user_id,
                        name: String::from_str("Administrador"),
                        login: n.clone(),
                        password_hash: hash,
                        role: String::from_str("admin"),
                        created_at: now,
                    },
                );
                self.next_user_id = self.next_user_id + 1;
            },
        }
        let ghost mid = self.users@;
        let ghost target: int = match found {
            Some(i) => i as int,
            None => mid.len() - 1,
        };
        proof {
            assert(mid[target].login@ == n@);
            assert forall|i: int|
                0 <= i < old_db.users@.len() && found != Some(i as usize) implies mid[i] == old_db.users@[i] by {}
            assert forall|j: int| 0 <= j < mid.len() implies old_db.users@.contains(#[trigger] mid[j]) || mid[j].login@ == n@ by {
                if j != target {
                    assert(mid[j] == old_db.users@[j]);
                }
            }
        }
        if !str_eq(n.as_str(), "admin") {
            let mut rest: Vec<UserRecord> = Vec::new();
            std::mem::swap(&mut rest, &mut self.users);
            let mut kept: Vec<UserRecord> = Vec::new();
            let total = rest.len();
            let mut j: usize = 0;
            while j < total
                invariant
                    total == mid.len(),
                    rest@ == mid.subrange(j as int, mid.len() as int),
                    0 <= j <= mid.len(),
                    kept@.len() <= j,
                    forall|a: int| 0 <= a < kept@.len() ==> (#[trigger] kept@[a]).login@ != "admin"@,
                    forall|a: int| 0 <= a < kept@.len() ==> mid.contains(#[trigger] kept@[a]),
                    forall|b: int| 0 <= b < j && (#[trigger] mid[b]).login@ != "admin"@ ==> kept@.contains(mid[b]),
                decreases mid.len() - j,
            {
                let ghost before = kept@;
                let u = rest.remove(0);
                assert(u == mid[j as int]);
                assert(rest@ =~= mid.subrange(j as int + 1, mid.len() as int));
                if !str_eq(u.login.as_str(), "admin") {
                    kept.push(u);
                    proof {
                        assert(kept@ == before.push(mid[j as int]));
                        assert forall|b: int| 0 <= b < j + 1 && (#[trigger] mid[b]).login@ != "admin"@ implies kept@.contains(mid[b]) by {
                            if b < j {
                                assert(before.contains(mid[b]));
                                let w = choose|w: int| 0 <= w < before.len() && before[w] == mid[b];
                                assert(kept@[w] == mid[b]);
                            } else {
                                assert(kept@[kept@.len() - 1] == mid[b]);
                            }
                        }
                        assert forall|a: int| 0 <= a < kept@.len() implies mid.contains(#[trigger] kept@[a]) by {
                            if a < before.len() {
                                assert(kept@[a] == before[a]);
                            } else {
                                assert(mid[j as int] == kept@[a]);
                            }
                        }
                    }
                }
                j = j + 1;
            }
            self.users = kept;
        }
        proof {
            let fu = self.users@;
            assert forall|j: int| 0 <= j < fu.len() implies old_db.users@.contains(#[trigger] fu[j]) || fu[j].login@ == n@ by {
                assert(mid.contains(fu[j]));
                let w = choose|w: int| 0 <= w < mid.len() && mid[w] == fu[j];
            }
            if n@ != "admin"@ {
                assert(mid[target].login@ != "admin"@);
                assert(fu.contains(mid[target]));
                let w = choose|w: int| 0 <= w < fu.len() && fu[w] == mid[target];
                assert(fu[w].login@ == n@);
            } else {
                assert(fu == mid);
                assert(fu[target].login@ == n@);
            }
            assert forall|i: int|
                0 <= i < old_db.users@.len() && first_found_from(old_db.users@, (n@, false), 0)
                    != Some(i) && first_found_from(old_db.users@, (n@ + "@"@, true), 0) != Some(i)
                    && (n@ == "admin"@ || old_db.users@[i].login@ != "admin"@) implies fu.contains(
                #[trigger] old_db.users@[i],
            ) by {
                assert(pattern@ == n@ + "@"@);
                assert(found != Some(i as usize));
                assert(mid[i] == old_db.users@[i]);
                if n@ == "admin"@ {
                    assert(fu == mid);
                    assert(fu[i] == mid[i]);
                }
            }
            assert forall|j: int| 0 <= j < fu.len() implies #[trigger] fu[j].id < self.next_user_id by {
                assert(mid.contains(fu[j]));
                let w = choose|w: int| 0 <= w < mid.len() && mid[w] == fu[j];
                if w < old_db.users@.len() {
                    assert(mid[w].id == old_db.users@[w].id);
                }
            }
        }
        assert(self.users@.len() <= MAX_ROWS);
        assert(self.ids_wf());
        assert(self.cabinets_wf());
        assert(self.positions_wf());
        assert(self.refs_wf());
        Ok(())
    }
}

} // verus!

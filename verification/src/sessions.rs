//! The Session Registry: an in-memory table from user identifier to session
//! token, exposed through `create_session` and `delete_session`.
//!
//! A registry keeps, besides the table itself, the history of every token it
//! has returned, so that a token, once issued, is never issued again.

use vstd::prelude::*;
use vstd::string::StringExecFns;

use crate::kvmap::{
    distinct_keys, kv_map, lemma_kv_map_contains_key, lemma_kv_map_index, lemma_kv_map_len,
    lemma_kv_map_push, lemma_kv_map_remove,
};

verus! {

/// The character sequences of each string of `s`, in order.
pub open spec fn seq_views(s: Seq<String>) -> Seq<Seq<char>> {
    Seq::new(s.len(), |i: int| s[i]@)
}

/// No two entries of `s` are equal.
pub open spec fn pairwise_distinct(s: Seq<Seq<char>>) -> bool {
    forall|i: int, j: int| 0 <= i < j < s.len() ==> s[i] != s[j]
}

/// The capability a session store offers its callers: issue a session token
/// for an authenticated user and revoke a user's session. The in-memory
/// table below is one implementation; a durable or distributed store could
/// stand behind the same contract.
pub trait Sessions {
    /// The table of active sessions: user identifier to session token.
    spec fn sessions(&self) -> Map<Seq<char>, Seq<char>>;

    /// Every token the store has returned, oldest first.
    spec fn issued(&self) -> Seq<Seq<char>>;

    /// Well-formedness of the store.
    spec fn inv(&self) -> bool;

    /// Issues a token never issued before, stores it for `user_uuid`
    /// (replacing any session the user had), and returns it. The caller
    /// vouches that `user_uuid` names an authenticated user; the store does
    /// not verify credentials.
    fn create_session(&mut self, user_uuid: &str) -> (token: String)
        requires
            old(self).inv(),
            user_uuid@.len() > 0,
        ensures
            final(self).inv(),
            final(self).sessions() == old(self).sessions().insert(user_uuid@, token@),
            !old(self).issued().contains(token@),
            final(self).issued() == old(self).issued().push(token@),
    ;

    /// Removes `user_uuid`'s session if it has one. Deleting a session for
    /// a user without one changes nothing and is not an error.
    fn delete_session(&mut self, user_uuid: &str)
        requires
            old(self).inv(),
        ensures
            final(self).inv(),
            final(self).sessions() == old(self).sessions().remove(user_uuid@),
            final(self).issued() == old(self).issued(),
    ;
}

/// The in-memory session store: (user, token) pairs with pairwise-distinct
/// users, together with the history of every token issued so far.
pub struct SessionsImpl {
    user_to_session: Vec<(String, String)>,
    issued_tokens: Vec<String>,
}

/// Relies on `uuid::Uuid::new_v4` and the `Display` form of `Uuid`: a fresh
/// version-4 UUID rendered as 36 hyphenated lower-case hexadecimal
/// characters.
#[verifier::external_body]
fn new_token() -> (r: String)
    ensures
        r@.len() == 36,
{
    uuid::Uuid::new_v4().to_string()
}

/// Whether `t` equals one of the strings of `v`.
fn contains_string(v: &Vec<String>, t: &String) -> (r: bool)
    ensures
        r <==> seq_views(v@).contains(t@),
{
    let mut i: usize = 0;
    while i < v.len()
        invariant
            i <= v@.len(),
            forall|j: int| 0 <= j < i ==> v@[j]@ != t@,
        decreases v@.len() - i,
    {
        if v[i] == *t {
            proof {
                assert(seq_views(v@)[i as int] == t@);
            }
            return true;
        }
        i = i + 1;
    }
    proof {
        assert forall|j: int| 0 <= j < seq_views(v@).len() implies seq_views(v@)[j] != t@ by {
            assert(v@[j]@ != t@);
        }
    }
    false
}

/// Grows `base` until it is longer than every string of `v`, so that it can
/// equal none of them.
fn extend_past_all(base: String, v: &Vec<String>) -> (t: String)
    requires
        base@.len() >= 1,
    ensures
        forall|j: int| 0 <= j < v@.len() ==> v@[j]@.len() < t@.len(),
{
    let mut t: String = base;
    let mut i: usize = 0;
    while i < v.len()
        invariant
            1 <= t@.len(),
            i <= v@.len(),
            forall|j: int| 0 <= j < i ==> v@[j]@.len() < t@.len(),
        decreases v@.len() - i,
    {
        t.append(v[i].as_str());
        i = i + 1;
    }
    t
}

/// A token that the store has never issued: a fresh UUID, or, should that
/// collide with an issued token (random 128-bit tokens are not expected to
/// collide within a process lifetime), a second UUID extended past the
/// length of every issued token, which no issued token can then equal.
fn fresh_token(issued: &Vec<String>) -> (t: String)
    ensures
        !seq_views(issued@).contains(t@),
{
    let t = new_token();
    if !contains_string(issued, &t) {
        return t;
    }
    let long = extend_past_all(new_token(), issued);
    proof {
        assert(!seq_views(issued@).contains(long@)) by {
            if seq_views(issued@).contains(long@) {
                let j = choose|j: int|
                    0 <= j < seq_views(issued@).len() && seq_views(issued@)[j] == long@;
                assert(issued@[j]@.len() < long@.len());
            }
        }
    }
    long
}

impl SessionsImpl {
    /// The stored (user, token) pairs as character sequences.
    spec fn entry_seq(&self) -> Seq<(Seq<char>, Seq<char>)> {
        Seq::new(
            self.user_to_session@.len(),
            |i: int| (self.user_to_session@[i].0@, self.user_to_session@[i].1@),
        )
    }

    /// The position of `key` among the stored pairs, if any.
    fn find_user(&self, key: &String) -> (r: Option<usize>)
        ensures
            r matches Some(i) ==> i < self.entry_seq().len() && self.entry_seq()[i as int].0
                == key@,
            r is None ==> forall|j: int|
                0 <= j < self.entry_seq().len() ==> self.entry_seq()[j].0 != key@,
    {
        let mut i: usize = 0;
        while i < self.user_to_session.len()
            invariant
                i <= self.user_to_session@.len(),
                forall|j: int| 0 <= j < i ==> self.entry_seq()[j].0 != key@,
            decreases self.user_to_session@.len() - i,
        {
            if self.user_to_session[i].0 == *key {
                proof {
                    assert(self.entry_seq()[i as int].0 == key@);
                }
                return Some(i);
            }
            i = i + 1;
        }
        None
    }

    /// How many users hold an active session.
    pub fn session_count(&self) -> (n: usize)
        requires
            self.inv(),
        ensures
            n == self.sessions().len(),
    {
        proof {
            lemma_kv_map_len(self.entry_seq());
        }
        self.user_to_session.len()
    }

    /// The token stored for `user_uuid`, if the user has a session.
    pub fn session_token(&self, user_uuid: &str) -> (r: Option<String>)
        requires
            self.inv(),
        ensures
            r is Some <==> self.sessions().contains_key(user_uuid@),
            r matches Some(t) ==> t@ == self.sessions()[user_uuid@],
    {
        let key: String = user_uuid.to_owned();
        proof {
            lemma_kv_map_contains_key(self.entry_seq(), key@);
        }
        match self.find_user(&key) {
            Some(i) => {
                proof {
                    lemma_kv_map_index(self.entry_seq(), i as int);
                }
                Some(self.user_to_session[i].1.clone())
            },
            None => None,
        }
    }
}

impl Default for SessionsImpl {
    /// An empty registry: no sessions, and no token issued yet.
    fn default() -> (r: Self)
        ensures
            r.inv(),
            r.sessions() == Map::<Seq<char>, Seq<char>>::empty(),
            r.issued() == Seq::<Seq<char>>::empty(),
    {
        let r = SessionsImpl { user_to_session: Vec::new(), issued_tokens: Vec::new() };
        proof {
            assert(r.entry_seq() =~= Seq::<(Seq<char>, Seq<char>)>::empty());
            assert(r.issued() =~= Seq::<Seq<char>>::empty());
            assert(r.sessions() =~= Map::<Seq<char>, Seq<char>>::empty());
        }
        r
    }
}

impl Sessions for SessionsImpl {
    closed spec fn sessions(&self) -> Map<Seq<char>, Seq<char>> {
        kv_map(self.entry_seq())
    }

    closed spec fn issued(&self) -> Seq<Seq<char>> {
        seq_views(self.issued_tokens@)
    }

    closed spec fn inv(&self) -> bool {
        distinct_keys(self.entry_seq()) && pairwise_distinct(self.issued())
    }

    fn create_session(&mut self, user_uuid: &str) -> (token: String) {
        let key: String = user_uuid.to_owned();
        let token: String = fresh_token(&self.issued_tokens);
        let ghost entries0 = self.entry_seq();
        match self.find_user(&key) {
            Some(i) => {
                proof {
                    lemma_kv_map_remove(entries0, i as int);
                }
                let _ = self.user_to_session.remove(i);
                proof {
                    assert(self.entry_seq() =~= entries0.remove(i as int));
                    assert forall|j: int|
                        0 <= j < self.entry_seq().len() implies self.entry_seq()[j].0
                        != key@ by {
                        if j < i {
                            assert(self.entry_seq()[j] == entries0[j]);
                        } else {
                            assert(self.entry_seq()[j] == entries0[j + 1]);
                        }
                    }
                    assert(distinct_keys(self.entry_seq())) by {
                        assert forall|a: int, b: int|
                            0 <= a < b < self.entry_seq().len() implies self.entry_seq()[a].0
                            != self.entry_seq()[b].0 by {
                            let a0: int = if a < i { a } else { a + 1 };
                            let b0: int = if b < i { b } else { b + 1 };
                            assert(self.entry_seq()[a] == entries0[a0]);
                            assert(self.entry_seq()[b] == entries0[b0]);
                        }
                    }
                    assert(kv_map(self.entry_seq()) == kv_map(entries0).remove(key@));
                }
            },
            None => {
                proof {
                    lemma_kv_map_contains_key(entries0, key@);
                    assert(kv_map(entries0).remove(key@) =~= kv_map(entries0));
                    assert(kv_map(self.entry_seq()) == kv_map(entries0).remove(key@));
                }
            },
        }
        let ghost entries1 = self.entry_seq();
        self.user_to_session.push((key, token.clone()));
        self.issued_tokens.push(token.clone());
        proof {
            assert(self.entry_seq() =~= entries1.push((user_uuid@, token@)));
            lemma_kv_map_push(entries1, (user_uuid@, token@));
            assert(kv_map(self.entry_seq()) =~= kv_map(entries0).insert(user_uuid@, token@));
            assert(distinct_keys(self.entry_seq()));
            assert(self.issued() =~= old(self).issued().push(token@));
            assert(pairwise_distinct(self.issued())) by {
                assert forall|a: int, b: int|
                    0 <= a < b < self.issued().len() implies self.issued()[a]
                    != self.issued()[b] by {
                    if b == self.issued().len() - 1 {
                        assert(old(self).issued()[a] != token@);
                    }
                }
            }
        }
        token
    }

    fn delete_session(&mut self, user_uuid: &str) {
        let key: String = user_uuid.to_owned();
        let ghost entries0 = self.entry_seq();
        match self.find_user(&key) {
            Some(i) => {
                proof {
                    lemma_kv_map_remove(entries0, i as int);
                }
                let _ = self.user_to_session.remove(i);
                proof {
                    assert(self.entry_seq() =~= entries0.remove(i as int));
                    assert(distinct_keys(self.entry_seq())) by {
                        assert forall|a: int, b: int|
                            0 <= a < b < self.entry_seq().len() implies self.entry_seq()[a].0
                            != self.entry_seq()[b].0 by {
                            let a0: int = if a < i { a } else { a + 1 };
                            let b0: int = if b < i { b } else { b + 1 };
                            assert(self.entry_seq()[a] == entries0[a0]);
                            assert(self.entry_seq()[b] == entries0[b0]);
                        }
                    }
                    assert(kv_map(self.entry_seq()) == kv_map(entries0).remove(user_uuid@));
                }
            },
            None => {
                proof {
                    lemma_kv_map_contains_key(entries0, key@);
                    assert(kv_map(entries0).remove(user_uuid@) =~= kv_map(entries0));
                }
            },
        }
    }
}

/// Tokens are never reused: the issue history of a well-formed registry, to
/// which `create_session` appends every token it returns, holds no two
/// equal tokens.
pub proof fn lemma_issued_tokens_unique(r: &SessionsImpl, i: int, j: int)
    requires
        r.inv(),
        0 <= i < r.issued().len(),
        0 <= j < r.issued().len(),
        i != j,
    ensures
        r.issued()[i] != r.issued()[j],
{
}

/// A token returned by a later create differs from every token returned
/// earlier: the earlier token already stands in the issue history that the
/// later create avoids.
pub proof fn lemma_later_token_differs(
    history: Seq<Seq<char>>,
    earlier: Seq<char>,
    later: Seq<char>,
)
    requires
        history.contains(earlier),
        !history.contains(later),
    ensures
        earlier != later,
{
}

/// Creating a session twice for one user leaves exactly the second token
/// associated with that user; the first token is no longer stored for the
/// user.
pub proof fn lemma_repeat_create_keeps_second(
    table: Map<Seq<char>, Seq<char>>,
    user: Seq<char>,
    first: Seq<char>,
    second: Seq<char>,
)
    ensures
        table.insert(user, first).insert(user, second)[user] == second,
        first != second ==> table.insert(user, first).insert(user, second)[user] != first,
{
}

/// Deleting the session of a user that has none leaves the table unchanged.
pub proof fn lemma_delete_without_session_is_noop(
    table: Map<Seq<char>, Seq<char>>,
    user: Seq<char>,
)
    requires
        !table.contains_key(user),
    ensures
        table.remove(user) == table,
{
    assert(table.remove(user) =~= table);
}

/// After a create and then a delete for one user, the table holds no
/// session for that user.
pub proof fn lemma_create_then_delete_absent(
    table: Map<Seq<char>, Seq<char>>,
    user: Seq<char>,
    token: Seq<char>,
)
    ensures
        !table.insert(user, token).remove(user).contains_key(user),
{
}

/// Operations on one user never touch another user's entry: neither an
/// insert nor a removal for `a` changes what is stored for `b`.
pub proof fn lemma_distinct_users_isolated(
    table: Map<Seq<char>, Seq<char>>,
    a: Seq<char>,
    b: Seq<char>,
    token: Seq<char>,
)
    requires
        a != b,
    ensures
        table.insert(a, token).contains_key(b) == table.contains_key(b),
        table.contains_key(b) ==> table.insert(a, token)[b] == table[b],
        table.remove(a).contains_key(b) == table.contains_key(b),
        table.contains_key(b) ==> table.remove(a)[b] == table[b],
{
}

/// The session table of a well-formed registry is a finite map.
pub proof fn lemma_sessions_finite(r: &SessionsImpl)
    requires
        r.inv(),
    ensures
        r.sessions().dom().finite(),
{
    lemma_kv_map_len(r.entry_seq());
}

/// Creating a session grows the table by one entry when the user had no
/// session, and keeps its size when the user had one.
pub proof fn lemma_create_changes_size(
    table: Map<Seq<char>, Seq<char>>,
    user: Seq<char>,
    token: Seq<char>,
)
    requires
        table.dom().finite(),
    ensures
        !table.contains_key(user) ==> table.insert(user, token).len() == table.len() + 1,
        table.contains_key(user) ==> table.insert(user, token).len() == table.len(),

{
    vstd::set::axiom_set_insert_len(table.dom(), user);
    assert(table.insert(user, token).dom() =~= table.dom().insert(user));
}

} // verus!


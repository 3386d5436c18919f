use vstd::prelude::*;

use super::ask::same_text;

verus! {

/// Whether some entry of `es` has the key `k`.
pub open spec fn has_key<V>(es: Seq<(String, V)>, k: Seq<char>) -> bool {
    exists|i: int| 0 <= i < es.len() && (#[trigger] es[i]).0@ == k
}

/// An entry of `es` with the key `k` (the only one, when keys are
/// distinct).
pub open spec fn key_at<V>(es: Seq<(String, V)>, k: Seq<char>) -> int {
    choose|i: int| 0 <= i < es.len() && (#[trigger] es[i]).0@ == k
}

/// No two entries of `es` have the same key.
pub open spec fn distinct_keys<V>(es: Seq<(String, V)>) -> bool {
    forall|i: int, j: int| 0 <= i < j < es.len() ==> (#[trigger] es[i]).0@ != (#[trigger] es[j]).0@
}

/// The secrets of the users of one server, by email.
pub open spec fn users_view(us: Seq<(String, String)>) -> Map<Seq<char>, Seq<char>> {
    Map::new(|k: Seq<char>| has_key(us, k), |k: Seq<char>| us[key_at(us, k)].1@)
}

/// `m` after the secret of the user `email` on `server` became `secret`.
pub open spec fn inserted(
    m: Map<Seq<char>, Map<Seq<char>, Seq<char>>>,
    server: Seq<char>,
    email: Seq<char>,
    secret: Seq<char>,
) -> Map<Seq<char>, Map<Seq<char>, Seq<char>>> {
    m.insert(
        server,
        (if m.contains_key(server) {
            m[server]
        } else {
            Map::empty()
        }).insert(email, secret),
    )
}

/// `m` after the secret of the user `email` on `server` was forgotten, and
/// with it the server if it has no users left.
pub open spec fn removed(
    m: Map<Seq<char>, Map<Seq<char>, Seq<char>>>,
    server: Seq<char>,
    email: Seq<char>,
) -> Map<Seq<char>, Map<Seq<char>, Seq<char>>> {
    if m.contains_key(server) {
        let users = m[server].remove(email);
        if holds_nothing(users) {
            m.remove(server)
        } else {
            m.insert(server, users)
        }
    } else {
        m
    }
}

/// The secret stored in `m` for the user `email` on `server`, if any.
pub open spec fn secret_of(
    m: Map<Seq<char>, Map<Seq<char>, Seq<char>>>,
    server: Seq<char>,
    email: Seq<char>,
) -> Option<Seq<char>> {
    if m.contains_key(server) && m[server].contains_key(email) {
        Some(m[server][email])
    } else {
        None
    }
}

/// A secret just stored is what reading it gives.
pub proof fn law_get_after_insert(
    m: Map<Seq<char>, Map<Seq<char>, Seq<char>>>,
    server: Seq<char>,
    email: Seq<char>,
    secret: Seq<char>,
)
    ensures
        secret_of(inserted(m, server, email, secret), server, email) == Some(secret),
{
}

/// A secret just forgotten is no longer found.
pub proof fn law_get_after_remove(m: Map<Seq<char>, Map<Seq<char>, Seq<char>>>, server: Seq<char>, email: Seq<char>)
    ensures
        secret_of(removed(m, server, email), server, email) is None,
{
}

/// Storing a secret for a user not yet stored, then forgetting it, leaves
/// the credentials as they were, unless the server was stored with no
/// users at all (it is then forgotten too).
pub proof fn law_remove_undoes_insert(
    m: Map<Seq<char>, Map<Seq<char>, Seq<char>>>,
    server: Seq<char>,
    email: Seq<char>,
    secret: Seq<char>,
)
    requires
        secret_of(m, server, email) is None,
        m.contains_key(server) ==> !holds_nothing(m[server]),
    ensures
        removed(inserted(m, server, email, secret), server, email) == m,
{
    let after = inserted(m, server, email, secret);
    let users = after[server].remove(email);
    if m.contains_key(server) {
        assert(users =~= m[server]);
        assert(after.insert(server, users) =~= m);
    } else {
        assert(users =~= Map::<Seq<char>, Seq<char>>::empty());
        assert(after.remove(server) =~= m);
    }
}

/// Whether a map holds nothing.
pub open spec fn holds_nothing<K, V>(m: Map<K, V>) -> bool {
    forall|k: K| !(#[trigger] m.contains_key(k))
}

proof fn lemma_key_at<V>(es: Seq<(String, V)>, i: int)
    requires
        distinct_keys(es),
        0 <= i < es.len(),
    ensures
        has_key(es, es[i].0@),
        key_at(es, es[i].0@) == i,
{
    assert(es[i].0@ == es[i].0@);
    let j = key_at(es, es[i].0@);
    if j < i {
        assert(es[j].0@ != es[i].0@);
    } else if j > i {
        assert(es[i].0@ != es[j].0@);
    }
}

/// Where the entry with key `key` is, if there is one.
fn find_key<V>(es: &Vec<(String, V)>, key: &str) -> (found: Option<usize>)
    ensures
        match found {
            Some(i) => i < es@.len() && es@[i as int].0@ == key@,
            None => !has_key(es@, key@),
        },
{
    let mut i: usize = 0;
    while i < es.len()
        invariant
            0 <= i <= es@.len(),
            forall|j: int| 0 <= j < i ==> (#[trigger] es@[j]).0@ != key@,
        decreases es@.len() - i,
    {
        if same_text(es[i].0.as_str(), key) {
            return Some(i);
        }
        i += 1;
    }
    None
}

/// Login secrets, by server and by the email of the user on it.
#[derive(Debug, Default)]
pub struct Credentials {
    servers: Vec<(String, Vec<(String, String)>)>,
}

impl View for Credentials {
    type V = Map<Seq<char>, Map<Seq<char>, Seq<char>>>;

    closed spec fn view(&self) -> Map<Seq<char>, Map<Seq<char>, Seq<char>>> {
        let ss = self.servers@;
        Map::new(|k: Seq<char>| has_key(ss, k), |k: Seq<char>| users_view(ss[key_at(ss, k)].1@))
    }
}

impl Credentials {
    /// No server or email occurs twice.
    pub closed spec fn wf(&self) -> bool {
        &&& distinct_keys(self.servers@)
        &&& forall|i: int| 0 <= i < self.servers@.len() ==> distinct_keys((#[trigger] self.servers@[i]).1@)
    }

    pub fn new() -> (credentials: Self)
        ensures
            credentials.wf(),
            holds_nothing(credentials@),
    {
        Credentials { servers: Vec::new() }
    }

    /// Credentials holding the secrets `servers` lists, by server and then
    /// by email, if no server and no email of a server occurs twice.
    pub fn from_entries(servers: Vec<(String, Vec<(String, String)>)>) -> (credentials: Option<Self>)
        ensures
            credentials matches Some(c) ==> c.wf() && c.entries() == servers@,
            credentials is None ==> !(distinct_keys(servers@) && forall|i: int|
                0 <= i < servers@.len() ==> distinct_keys((#[trigger] servers@[i]).1@)),
    {
        let mut i: usize = 0;
        while i < servers.len()
            invariant
                0 <= i <= servers@.len(),
                forall|a: int, b: int| 0 <= a < b < servers@.len() && a < i ==> (#[trigger] servers@[a]).0@ != (
                #[trigger] servers@[b]).0@,
                forall|a: int| 0 <= a < i ==> distinct_keys((#[trigger] servers@[a]).1@),
            decreases servers@.len() - i,
        {
            let mut j: usize = i + 1;
            while j < servers.len()
                invariant
                    0 <= i < servers@.len(),
                    i < j <= servers@.len(),
                    forall|b: int| i < b < j ==> servers@[i as int].0@ != (#[trigger] servers@[b]).0@,
                decreases servers@.len() - j,
            {
                if same_text(servers[i].0.as_str(), servers[j].0.as_str()) {
                    return None;
                }
                j += 1;
            }
            let users = &servers[i].1;
            let mut a: usize = 0;
            while a < users.len()
                invariant
                    0 <= i < servers@.len(),
                    users@ == servers@[i as int].1@,
                    0 <= a <= users@.len(),
                    forall|x: int, y: int| 0 <= x < y < users@.len() && x < a ==> (#[trigger] users@[x]).0@ != (
                    #[trigger] users@[y]).0@,
                decreases users@.len() - a,
            {
                let mut b: usize = a + 1;
                while b < users.len()
                    invariant
                        0 <= i < servers@.len(),
                        users@ == servers@[i as int].1@,
                        0 <= a < users@.len(),
                        a < b <= users@.len(),
                        forall|y: int| a < y < b ==> users@[a as int].0@ != (#[trigger] users@[y]).0@,
                    decreases users@.len() - b,
                {
                    if same_text(users[a].0.as_str(), users[b].0.as_str()) {
                        proof {
                            assert(servers@[i as int].1@[a as int].0@ == servers@[i as int].1@[b as int].0@);
                            assert(!distinct_keys(servers@[i as int].1@));
                        }
                        return None;
                    }
                    b += 1;
                }
                a += 1;
            }
            i += 1;
        }
        Some(Credentials { servers })
    }

    /// The entries, by server and then by email.
    pub closed spec fn entries(&self) -> Seq<(String, Vec<(String, String)>)> {
        self.servers@
    }

    /// Gives back the entries, by server and then by email.
    pub fn into_entries(self) -> (servers: Vec<(String, Vec<(String, String)>)>)
        ensures
            servers@ == self.entries(),
    {
        self.servers
    }

    /// The secret of the user `email` on `server`, if there is one.
    pub fn get(&self, server: &str, email: &str) -> (secret: Option<String>)
        requires
            self.wf(),
        ensures
            match secret {
                Some(s) => secret_of(self@, server@, email@) == Some(s@),
                None => secret_of(self@, server@, email@) is None,
            },
    {
        match find_key(&self.servers, server) {
            Some(i) => {
                proof {
                    lemma_key_at(self.servers@, i as int);
                }
                let users = &self.servers[i].1;
                match find_key(users, email) {
                    Some(j) => {
                        proof {
                            lemma_key_at(users@, j as int);
                        }
                        Some(users[j].1.clone())
                    },
                    None => None,
                }
            },
            None => None,
        }
    }

    /// Whether no server has secrets stored.
    pub fn is_empty(&self) -> (empty: bool)
        ensures
            empty == holds_nothing(self@),
    {
        if self.servers.len() == 0 {
            true
        } else {
            proof {
                assert(self@.contains_key(self.servers@[0].0@));
            }
            false
        }
    }

    /// Stores the secret of the user `email` on `server`, replacing any
    /// earlier one.
    pub fn insert(&mut self, server: String, email: String, secret: String)
        requires
            old(self).wf(),
        ensures
            final(self).wf(),
            final(self)@ == inserted(old(self)@, server@, email@, secret@),
    {
        let ghost before = self.servers@;
        match find_key(&self.servers, server.as_str()) {
            Some(i) => {
                proof {
                    lemma_key_at(before, i as int);
                }
                let users = &mut self.servers[i].1;
                let ghost users_before = users@;
                match find_key(users, email.as_str()) {
                    Some(j) => {
                        proof {
                            lemma_key_at(users_before, j as int);
                        }
                        users.set(j, (email, secret));
                        proof {
                            assert forall|x: int, y: int| 0 <= x < y < users@.len() implies (#[trigger] users@[x]).0@
                                != (#[trigger] users@[y]).0@ by {
                                assert(users_before[x].0@ != users_before[y].0@);
                            }
                            assert forall|k: Seq<char>| #[trigger] users_view(users@).contains_key(k) <==> users_view(
                                users_before,
                            ).insert(email@, secret@).contains_key(k) by {
                                if has_key(users_before, k) {
                                    let m = key_at(users_before, k);
                                    assert(users@[m].0@ == k || m == j);
                                }
                                if has_key(users@, k) {
                                    let m = key_at(users@, k);
                                    assert(users_before[m].0@ == k || m == j);
                                }
                            }
                            assert forall|k: Seq<char>| #[trigger] users_view(users@).contains_key(k) implies users_view(
                                users@,
                            )[k] == users_view(users_before).insert(email@, secret@)[k] by {
                                let m = key_at(users@, k);
                                lemma_key_at(users@, m);
                                if m != j {
                                    lemma_key_at(users_before, m);
                                }
                            }
                            assert(users_view(users@) =~= users_view(users_before).insert(email@, secret@));
                        }
                    },
                    None => {
                        users.push((email, secret));
                        proof {
                            let n = users_before.len() as int;
                            assert forall|x: int, y: int| 0 <= x < y < users@.len() implies (#[trigger] users@[x]).0@
                                != (#[trigger] users@[y]).0@ by {
                                if y == n {
                                    assert(users_before[x] == users@[x]);
                                }
                            }
                            assert forall|k: Seq<char>| #[trigger] users_view(users@).contains_key(k) <==> users_view(
                                users_before,
                            ).insert(email@, secret@).contains_key(k) by {
                                if has_key(users_before, k) {
                                    let m = key_at(users_before, k);
                                    assert(users@[m] == users_before[m]);
                                }
                                if k == email@ {
                                    assert(users@[n].0@ == k);
                                }
                                if has_key(users@, k) {
                                    let m = key_at(users@, k);
                                    if m < n {
                                        assert(users_before[m] == users@[m]);
                                    }
                                }
                            }
                            assert forall|k: Seq<char>| #[trigger] users_view(users@).contains_key(k) implies users_view(
                                users@,
                            )[k] == users_view(users_before).insert(email@, secret@)[k] by {
                                let m = key_at(users@, k);
                                lemma_key_at(users@, m);
                                if m < n {
                                    assert(users_before[m] == users@[m]);
                                    lemma_key_at(users_before, m);
                                }
                            }
                            assert(users_view(users@) =~= users_view(users_before).insert(email@, secret@));
                        }
                    },
                }
                proof {
                    let after = self.servers@;
                    assert forall|a: int, b: int| 0 <= a < b < after.len() implies (#[trigger] after[a]).0@
                        != (#[trigger] after[b]).0@ by {
                        assert(before[a].0@ != before[b].0@);
                    }
                    assert forall|k: Seq<char>| #[trigger] self@.contains_key(k) <==> old(self)@.insert(
                        server@,
                        old(self)@[server@].insert(email@, secret@),
                    ).contains_key(k) by {
                        if has_key(before, k) {
                            let m = key_at(before, k);
                            assert(after[m].0@ == k);
                        }
                        if has_key(after, k) {
                            let m = key_at(after, k);
                            assert(before[m].0@ == k);
                        }
                    }
                    assert forall|k: Seq<char>| #[trigger] self@.contains_key(k) implies self@[k] == old(self)@.insert(
                        server@,
                        old(self)@[server@].insert(email@, secret@),
                    )[k] by {
                        let m = key_at(after, k);
                        lemma_key_at(after, m);
                        if m != i {
                            lemma_key_at(before, m);
                        }
                    }
                    assert(self@ =~= old(self)@.insert(server@, old(self)@[server@].insert(email@, secret@)));
                }
            },
            None => {
                let mut users = Vec::new();
                users.push((email, secret));
                self.servers.push((server, users));
                proof {
                    let after = self.servers@;
                    let n = before.len() as int;
                    let us = after[n].1@;
                    assert(us.len() == 1);
                    lemma_key_at(us, 0);
                    assert(users_view(us) =~= Map::<Seq<char>, Seq<char>>::empty().insert(email@, secret@)) by {
                        assert forall|k: Seq<char>| #[trigger] users_view(us).contains_key(k) implies k == email@ by {
                            let m = key_at(us, k);
                            assert(m == 0);
                        }
                    }
                    assert forall|a: int, b: int| 0 <= a < b < after.len() implies (#[trigger] after[a]).0@
                        != (#[trigger] after[b]).0@ by {
                        if b == n {
                            assert(before[a] == after[a]);
                        }
                    }
                    assert forall|a: int| 0 <= a < after.len() implies distinct_keys((#[trigger] after[a]).1@) by {
                        if a < n {
                            assert(before[a] == after[a]);
                        }
                    }
                    assert forall|k: Seq<char>| #[trigger] self@.contains_key(k) <==> old(self)@.insert(
                        server@,
                        Map::<Seq<char>, Seq<char>>::empty().insert(email@, secret@),
                    ).contains_key(k) by {
                        if has_key(before, k) {
                            let m = key_at(before, k);
                            assert(after[m] == before[m]);
                        }
                        if k == server@ {
                            assert(after[n].0@ == k);
                        }
                        if has_key(after, k) {
                            let m = key_at(after, k);
                            if m < n {
                                assert(before[m] == after[m]);
                            }
                        }
                    }
                    assert forall|k: Seq<char>| #[trigger] self@.contains_key(k) implies self@[k] == old(self)@.insert(
                        server@,
                        Map::<Seq<char>, Seq<char>>::empty().insert(email@, secret@),
                    )[k] by {
                        let m = key_at(after, k);
                        lemma_key_at(after, m);
                        if m < n {
                            assert(before[m] == after[m]);
                            lemma_key_at(before, m);
                        }
                    }
                    assert(self@ =~= old(self)@.insert(
                        server@,
                        Map::<Seq<char>, Seq<char>>::empty().insert(email@, secret@),
                    ));
                }
            },
        }
    }

    /// Forgets the secret of the user `email` on `server`; a server left
    /// with no users is forgotten too.
    pub fn remove(&mut self, server: &str, email: &str)
        requires
            old(self).wf(),
        ensures
            final(self).wf(),
            final(self)@ == removed(old(self)@, server@, email@),
    {
        let ghost before = self.servers@;
        match find_key(&self.servers, server) {
            Some(i) => {
                proof {
                    lemma_key_at(before, i as int);
                }
                let users = &mut self.servers[i].1;
                let ghost users_before = users@;
                match find_key(users, email) {
                    Some(j) => {
                        proof {
                            lemma_key_at(users_before, j as int);
                        }
                        users.remove(j);
                    },
                    None => {},
                }
                proof {
                    assert forall|x: int, y: int| 0 <= x < y < users@.len() implies (#[trigger] users@[x]).0@
                        != (#[trigger] users@[y]).0@ by {
                        if users@.len() < users_before.len() {
                            let j = key_at(users_before, email@);
                            let ox = if x < j { x } else { x + 1 };
                            let oy = if y < j { y } else { y + 1 };
                            assert(users@[x] == users_before[ox]);
                            assert(users@[y] == users_before[oy]);
                        }
                    }
                    assert forall|k: Seq<char>| #[trigger] users_view(users@).contains_key(k) <==> users_view(
                        users_before,
                    ).remove(email@).contains_key(k) by {
                        if users@.len() < users_before.len() {
                            let j = key_at(users_before, email@);
                            if has_key(users_before, k) && k != email@ {
                                let m = key_at(users_before, k);
                                assert(m != j);
                                let n = if m < j { m } else { m - 1 };
                                assert(users@[n] == users_before[m]);
                            }
                            if has_key(users@, k) {
                                let m = key_at(users@, k);
                                let o = if m < j { m } else { m + 1 };
                                assert(users@[m] == users_before[o]);
                                assert(users_before[j].0@ == email@);
                            }
                        }
                    }
                    assert forall|k: Seq<char>| #[trigger] users_view(users@).contains_key(k) implies users_view(
                        users@,
                    )[k] == users_view(users_before).remove(email@)[k] by {
                        let m = key_at(users@, k);
                        lemma_key_at(users@, m);
                        if users@.len() < users_before.len() {
                            let j = key_at(users_before, email@);
                            let o = if m < j { m } else { m + 1 };
                            assert(users@[m] == users_before[o]);
                            lemma_key_at(users_before, o);
                        } else {
                            lemma_key_at(users_before, m);
                        }
                    }
                    assert(users_view(users@) =~= users_view(users_before).remove(email@));
                    if users@.len() > 0 {
                        assert(users_view(users@).contains_key(users@[0].0@));
                    }
                }
                let empty = users.len() == 0;
                let ghost mid = self.servers@;
                if empty {
                    self.servers.remove(i);
                    proof {
                        let after = self.servers@;
                        assert forall|a: int, b: int| 0 <= a < b < after.len() implies (#[trigger] after[a]).0@
                            != (#[trigger] after[b]).0@ by {
                            let oa = if a < i { a } else { a + 1 };
                            let ob = if b < i { b } else { b + 1 };
                            assert(after[a] == before[oa]);
                            assert(after[b] == before[ob]);
                        }
                        assert forall|a: int| 0 <= a < after.len() implies distinct_keys((#[trigger] after[a]).1@) by {
                            let oa = if a < i { a } else { a + 1 };
                            assert(after[a] == before[oa]);
                        }
                        assert forall|k: Seq<char>| #[trigger] self@.contains_key(k) <==> old(self)@.remove(
                            server@,
                        ).contains_key(k) by {
                            if has_key(before, k) && k != server@ {
                                let m = key_at(before, k);
                                assert(m != i);
                                let n = if m < i { m } else { m - 1 };
                                assert(after[n] == before[m]);
                            }
                            if has_key(after, k) {
                                let m = key_at(after, k);
                                let o = if m < i { m } else { m + 1 };
                                assert(after[m] == before[o]);
                            }
                        }
                        assert forall|k: Seq<char>| #[trigger] self@.contains_key(k) implies self@[k] == old(
                            self,
                        )@.remove(server@)[k] by {
                            let m = key_at(after, k);
                            lemma_key_at(after, m);
                            let o = if m < i { m } else { m + 1 };
                            assert(after[m] == before[o]);
                            lemma_key_at(before, o);
                        }
                        assert(self@ =~= old(self)@.remove(server@));
                    }
                } else {
                    proof {
                        let after = self.servers@;
                        assert forall|a: int, b: int| 0 <= a < b < after.len() implies (#[trigger] after[a]).0@
                            != (#[trigger] after[b]).0@ by {
                            assert(before[a].0@ != before[b].0@);
                        }
                        assert forall|k: Seq<char>| #[trigger] self@.contains_key(k) <==> old(self)@.insert(
                            server@,
                            old(self)@[server@].remove(email@),
                        ).contains_key(k) by {
                            if has_key(before, k) {
                                let m = key_at(before, k);
                                assert(after[m].0@ == k);
                            }
                            if has_key(after, k) {
                                let m = key_at(after, k);
                                assert(before[m].0@ == k);
                            }
                        }
                        assert forall|k: Seq<char>| #[trigger] self@.contains_key(k) implies self@[k] == old(
                            self,
                        )@.insert(server@, old(self)@[server@].remove(email@))[k] by {
                            let m = key_at(after, k);
                            lemma_key_at(after, m);
                            if m != i {
                                lemma_key_at(before, m);
                            }
                        }
                        assert(self@ =~= old(self)@.insert(server@, old(self)@[server@].remove(email@)));
                    }
                }
            },
            None => {},
        }
    }
}

} // verus!

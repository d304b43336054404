//! User name and password tables of the servers.
use vstd::prelude::*;
use crate::text::str_eq;

verus! {

/// The password recorded for `name`, by the first entry for that name.
pub open spec fn user_password(users: Seq<(String, String)>, name: Seq<char>) -> Option<Seq<char>>
    decreases users.len(),
{
    if users.len() == 0 {
        None
    } else if users[0].0@ == name {
        Some(users[0].1@)
    } else {
        user_password(users.drop_first(), name)
    }
}

/// Whether no name occurs twice.
pub open spec fn names_distinct(users: Seq<(String, String)>) -> bool {
    forall|i: int, j: int| 0 <= i < j < users.len() ==> users[i].0@ != users[j].0@
}

/// A name has no password exactly when no entry carries it; in a table where no name
/// occurs twice, the password of a name is that of the entry that carries it.
pub proof fn lemma_user_password_entries(users: Seq<(String, String)>, name: Seq<char>)
    ensures
        user_password(users, name) is None <==> (forall|i: int| 0 <= i < users.len() ==> (#[trigger] users[i]).0@ != name),
        names_distinct(users) ==> forall|i: int| 0 <= i < users.len() && (#[trigger] users[i]).0@ == name
            ==> user_password(users, name) == Some(users[i].1@),
    decreases users.len(),
{
    if users.len() > 0 {
        let rest = users.drop_first();
        lemma_user_password_entries(rest, name);
        assert forall|i: int| 0 < i < users.len() implies users[i] == rest[i - 1] by {}
        if users[0].0@ != name {
            assert((forall|i: int| 0 <= i < users.len() ==> (#[trigger] users[i]).0@ != name) <==> (forall|i: int|
                0 <= i < rest.len() ==> (#[trigger] rest[i]).0@ != name)) by {
                if forall|i: int| 0 <= i < rest.len() ==> (#[trigger] rest[i]).0@ != name {
                    assert forall|i: int| 0 <= i < users.len() implies (#[trigger] users[i]).0@ != name by {
                        if i > 0 {
                            assert(rest[i - 1].0@ != name);
                        }
                    }
                }
            }
            if names_distinct(users) {
                assert(names_distinct(rest)) by {
                    assert forall|a: int, b: int| 0 <= a < b < rest.len() implies rest[a].0@ != rest[b].0@ by {
                        assert(users[a + 1].0@ != users[b + 1].0@);
                    }
                }
            }
        } else {
            assert(users[0].0@ == name);
        }
    }
}

/// Whether `pass` is the password recorded for `user`.
pub fn check_password(users: &Vec<(String, String)>, user: &str, pass: &str) -> (r: bool)
    ensures
        r == (user_password(users@, user@) == Some(pass@)),
{
    match lookup_password(users, user) {
        Some(p) => str_eq(p.as_str(), pass),
        None => false,
    }
}

/// The password recorded for `user`, by the first entry for that name.
pub fn lookup_password(users: &Vec<(String, String)>, user: &str) -> (r: Option<String>)
    ensures
        match r {
            Some(p) => user_password(users@, user@) == Some(p@),
            None => user_password(users@, user@) is None,
        },
{
    let mut i: usize = 0;
    assert(users@.subrange(0, users@.len() as int) =~= users@);
    while i < users.len()
        invariant
            i <= users.len(),
            user_password(users@, user@) == user_password(users@.subrange(i as int, users@.len() as int), user@),
        decreases users.len() - i,
    {
        let ghost rest = users@.subrange(i as int, users@.len() as int);
        assert(rest[0] == users@[i as int]);
        assert(rest.drop_first() =~= users@.subrange(i + 1, users@.len() as int));
        if str_eq(users[i].0.as_str(), user) {
            return Some(users[i].1.clone());
        }
        i = i + 1;
    }
    None
}

/// The users a server accepts, each name with its password; no name occurs twice.
#[derive(Debug)]
pub struct UserTable {
    entries: Vec<(String, String)>,
}

impl UserTable {
    #[verifier::type_invariant]
    spec fn names_unique(self) -> bool {
        names_distinct(self.entries@)
    }

    /// The names and passwords in the table.
    pub closed spec fn entries(&self) -> Seq<(String, String)> {
        self.entries@
    }

    /// An empty table.
    pub fn new() -> (t: UserTable)
        ensures
            t.entries().len() == 0,
    {
        UserTable { entries: Vec::new() }
    }

    /// The number of users.
    pub fn len(&self) -> (n: usize)
        ensures
            n == self.entries().len(),
    {
        self.entries.len()
    }

    /// Records `password` for `name`, in place of any password it had; every other name
    /// keeps its password.
    pub fn insert(&mut self, name: String, password: String)
        ensures
            names_distinct(final(self).entries()),
            forall|n: Seq<char>| #[trigger] user_password(final(self).entries(), n) == if n == name@ {
                Some(password@)
            } else {
                user_password(old(self).entries(), n)
            },
    {
        proof {
            use_type_invariant(&*self);
        }
        let ghost before = self.entries@;
        let mut i: usize = 0;
        while i < self.entries.len()
            invariant
                i <= self.entries@.len(),
                self.entries@ == before,
                forall|k: int| 0 <= k < i ==> (#[trigger] before[k]).0@ != name@,
            ensures
                i <= before.len(),
                forall|k: int| 0 <= k < i ==> (#[trigger] before[k]).0@ != name@,
                i < before.len() ==> before[i as int].0@ == name@,
            decreases self.entries.len() - i,
        {
            if str_eq(self.entries[i].0.as_str(), name.as_str()) {
                break;
            }
            i = i + 1;
        }
        let mut v: Vec<(String, String)> = Vec::new();
        let mut j: usize = 0;
        while j < self.entries.len()
            invariant
                j <= self.entries@.len(),
                self.entries@ == before,
                v@.len() == j,
                forall|k: int| 0 <= k < j ==> (#[trigger] v@[k]) == before[k],
            decreases self.entries.len() - j,
        {
            let e = (self.entries[j].0.clone(), self.entries[j].1.clone());
            v.push(e);
            j = j + 1;
        }
        let ghost old_v = v@;
        if i < v.len() {
            v.set(i, (name, password));
        } else {
            v.push((name, password));
        }
        proof {
            assert(names_distinct(before));
            if i < before.len() {
                assert forall|k: int| 0 <= k < v@.len() implies (#[trigger] v@[k]).0@ == before[k].0@ by {
                    if k != i {
                        assert(v@[k] == old_v[k]);
                    }
                }
            }
            assert forall|a: int, b: int| 0 <= a < b < v@.len() implies v@[a].0@ != v@[b].0@ by {
                if i < before.len() {
                    assert(v@[a].0@ == before[a].0@);
                    assert(v@[b].0@ == before[b].0@);
                } else {
                    if b == before.len() {
                        assert(v@[a].0@ == before[a].0@);
                    }
                }
            }
            assert forall|n: Seq<char>| #[trigger] user_password(v@, n) == if n == name@ {
                Some(password@)
            } else {
                user_password(before, n)
            } by {
                lemma_user_password_entries(v@, n);
                lemma_user_password_entries(before, n);
                if n == name@ {
                    let w = if i < before.len() { i as int } else { before.len() as int };
                    assert(v@[w].0@ == n);
                } else {
                    assert forall|k: int| 0 <= k < v@.len() && (#[trigger] v@[k]).0@ == n implies k < before.len() && v@[k] == before[k] by {}
                    assert forall|k: int| 0 <= k < before.len() && (#[trigger] before[k]).0@ == n implies v@[k] == before[k] by {}
                    if user_password(before, n) is None {
                        assert forall|k: int| 0 <= k < v@.len() implies (#[trigger] v@[k]).0@ != n by {
                            if v@[k].0@ == n {
                                assert(before[k].0@ != n);
                            }
                        }
                    } else {
                        let k = choose|k: int| 0 <= k < before.len() && (#[trigger] before[k]).0@ == n;
                        assert(v@[k] == before[k]);
                    }
                }
            }
        }
        self.entries = v;
    }

    /// The password recorded for `user`.
    pub fn password_of(&self, user: &str) -> (r: Option<String>)
        ensures
            match r {
                Some(p) => user_password(self.entries(), user@) == Some(p@),
                None => user_password(self.entries(), user@) is None,
            },
    {
        lookup_password(&self.entries, user)
    }

    /// Whether `pass` is the password recorded for `user`.
    pub fn check(&self, user: &str, pass: &str) -> (r: bool)
        ensures
            r == (user_password(self.entries(), user@) == Some(pass@)),
    {
        check_password(&self.entries, user, pass)
    }
}

} // verus!

//! Connections kept per root, and the one retry after a lost one.

use crate::disk::CanonicalPaths;
use crate::path::same_path;
use crate::text::lower_contains;
use crate::types::SearchResponse;
use vstd::prelude::*;

verus! {

/// Kept connections by canonical root. `C` is a connection.
pub struct ConnectionPool<C> {
    pub clients: Vec<(String, C)>,
}

/// The key of a root: its canonical path, or the path itself where it does not resolve.
pub fn canonicalize_key(base_path: &str, disk: &CanonicalPaths) -> (r: String)
    ensures
        r@ == disk.canon(base_path@),
{
    disk.canonicalize(base_path)
}

impl<C> ConnectionPool<C> {
    /// Position `i` holds the connection of this root.
    pub open spec fn at(&self, i: int, key: Seq<char>) -> bool {
        0 <= i < self.clients@.len() && crate::path::path_eq(self.clients@[i].0@, key)
    }

    /// There is a connection for this root.
    pub open spec fn has(&self, key: Seq<char>) -> bool {
        exists|i: int| #[trigger] self.at(i, key)
    }

    /// No root has two connections.
    pub open spec fn wf(&self) -> bool {
        forall|i: int, j: int|
            0 <= i < j < self.clients@.len() ==> !crate::path::path_eq(
                (#[trigger] self.clients@[i]).0@,
                (#[trigger] self.clients@[j]).0@,
            )
    }

    /// The connection of this root, if there is one.
    pub open spec fn client_of(&self, key: Seq<char>) -> Option<C> {
        if self.has(key) {
            let i = choose|i: int| #[trigger] self.at(i, key);
            Some(self.clients@[i].1)
        } else {
            None
        }
    }

    pub fn new() -> (r: Self)
        ensures
            r.wf(),
            r.clients@.len() == 0,
            forall|key: Seq<char>| !#[trigger] r.has(key),
    {
        ConnectionPool { clients: Vec::new() }
    }

    fn find(&self, key: &str) -> (r: Option<usize>)
        ensures
            match r {
                Some(i) => self.at(i as int, key@),
                None => !self.has(key@),
            },
    {
        let mut i: usize = 0;
        while i < self.clients.len()
            invariant
                i <= self.clients@.len(),
                forall|j: int| j < i ==> !#[trigger] self.at(j, key@),
            decreases self.clients.len() - i,
        {
            if same_path(self.clients[i].0.as_str(), key) {
                return Some(i);
            }
            i = i + 1;
        }
        None
    }

    /// How many roots have a connection.
    pub fn len(&self) -> (n: usize)
        ensures
            n == self.clients@.len(),
    {
        self.clients.len()
    }

    /// The connection of a root, by its canonical path.
    pub fn lookup(&self, key: &str) -> (r: Option<&C>)
        requires
            self.wf(),
        ensures
            r is Some == self.has(key@),
            r matches Some(c) ==> self.client_of(key@) == Some(*c),
    {
        match self.find(key) {
            Some(i) => {
                assert(self.at(i as int, key@));
                proof {
                    let k = choose|k: int| #[trigger] self.at(k, key@);
                    if k < i {
                        assert(!crate::path::path_eq(self.clients@[k].0@, self.clients@[i as int].0@));
                    } else if k > i {
                        assert(!crate::path::path_eq(self.clients@[i as int].0@, self.clients@[k].0@));
                    }
                }
                Some(&self.clients[i].1)
            },
            None => None,
        }
    }

    /// Keeps a connection for a root, in place of the one it had.
    pub fn insert(&mut self, base_path: &str, client: C, disk: &CanonicalPaths)
        requires
            old(self).wf(),
        ensures
            final(self).wf(),
            forall|key: Seq<char>| #[trigger]
                final(self).client_of(key) == if crate::path::path_eq(
                    key,
                    disk.canon(base_path@),
                ) {
                    Some(client)
                } else {
                    old(self).client_of(key)
                },
            final(self).clients@.len() == old(self).clients@.len() + (if old(self).has(
                disk.canon(base_path@),
            ) {
                0int
            } else {
                1int
            }),
    {
        let key = canonicalize_key(base_path, disk);
        let ghost before = *self;
        let ghost k = key@;
        match self.find(key.as_str()) {
            Some(i) => {
                let ghost at = i as int;
                let ghost old_key = self.clients@[at].0@;
                assert(self.at(at, k));
                self.clients.set(i, (key, client));
                proof {
                    assert forall|a: int, b: int| 0 <= a < b < self.clients@.len() implies
                        !crate::path::path_eq(
                        (#[trigger] self.clients@[a]).0@,
                        (#[trigger] self.clients@[b]).0@,
                    ) by {
                        assert(!crate::path::path_eq(before.clients@[a].0@, before.clients@[b].0@));
                    }
                    assert forall|q: Seq<char>| #[trigger] self.client_of(q) == (if crate::path::path_eq(q, k) {
                        Some(client)
                    } else {
                        before.client_of(q)
                    }) by {
                        lemma_client_of_update(before, *self, at, q, client);
                    }
                }
            },
            None => {
                self.clients.push((key, client));
                proof {
                    assert forall|a: int, b: int| 0 <= a < b < self.clients@.len() implies
                        !crate::path::path_eq(
                        (#[trigger] self.clients@[a]).0@,
                        (#[trigger] self.clients@[b]).0@,
                    ) by {
                        if b < before.clients@.len() {
                            assert(!crate::path::path_eq(
                                before.clients@[a].0@,
                                before.clients@[b].0@,
                            ));
                        } else {
                            assert(!before.at(a, k));
                        }
                    }
                    assert forall|q: Seq<char>| #[trigger] self.client_of(q) == (if crate::path::path_eq(q, k) {
                        Some(client)
                    } else {
                        before.client_of(q)
                    }) by {
                        assert(self.clients@.drop_last() =~= before.clients@);
                        lemma_client_of_push(before, *self, q);
                    }
                }
            },
        }
    }

    /// Forgets the connection of a root; every other root keeps its own.
    pub fn invalidate(&mut self, base_path: &str, disk: &CanonicalPaths)
        requires
            old(self).wf(),
        ensures
            final(self).wf(),
            forall|key: Seq<char>| #[trigger]
                final(self).client_of(key) == if crate::path::path_eq(
                    key,
                    disk.canon(base_path@),
                ) {
                    None
                } else {
                    old(self).client_of(key)
                },
            final(self).clients@.len() == old(self).clients@.len() - (if old(self).has(
                disk.canon(base_path@),
            ) {
                1int
            } else {
                0int
            }),
    {
        let key = canonicalize_key(base_path, disk);
        let ghost before = *self;
        match self.find(key.as_str()) {
            Some(i) => {
                let ghost at = i as int;
                assert(before.at(at, key@));
                self.clients.remove(i);
                proof {
                    assert forall|a: int, b: int| 0 <= a < b < self.clients@.len() implies
                        !crate::path::path_eq(
                        (#[trigger] self.clients@[a]).0@,
                        (#[trigger] self.clients@[b]).0@,
                    ) by {
                        let x = if a < at {
                            a
                        } else {
                            a + 1
                        };
                        let y = if b < at {
                            b
                        } else {
                            b + 1
                        };
                        assert(self.clients@[a] == before.clients@[x]);
                        assert(self.clients@[b] == before.clients@[y]);
                        assert(!crate::path::path_eq(before.clients@[x].0@, before.clients@[y].0@));
                    }
                    assert forall|q: Seq<char>| #[trigger] self.client_of(q) == (if crate::path::path_eq(
                        q,
                        key@,
                    ) {
                        None
                    } else {
                        before.client_of(q)
                    }) by {
                        lemma_client_of_remove(before, *self, at, q);
                    }
                }
            },
            None => {
                assert forall|q: Seq<char>| #[trigger] self.client_of(q) == (if crate::path::path_eq(
                    q,
                    key@,
                ) {
                    None
                } else {
                    before.client_of(q)
                }) by {
                    if crate::path::path_eq(q, key@) && self.has(q) {
                        let j = choose|j: int| #[trigger] self.at(j, q);
                        assert(self.at(j, key@));
                    }
                }
            },
        }
    }
}

/// In a pool without repeated roots a position determines the connection.
proof fn lemma_client_at<C>(p: ConnectionPool<C>, i: int, key: Seq<char>)
    requires
        p.wf(),
        p.at(i, key),
    ensures
        p.client_of(key) == Some(p.clients@[i].1),
{
    let k = choose|k: int| #[trigger] p.at(k, key);
    if k < i {
        assert(!crate::path::path_eq(p.clients@[k].0@, p.clients@[i].0@));
    } else if k > i {
        assert(!crate::path::path_eq(p.clients@[i].0@, p.clients@[k].0@));
    }
}

proof fn lemma_client_of_update<C>(
    before: ConnectionPool<C>,
    after: ConnectionPool<C>,
    at: int,
    q: Seq<char>,
    client: C,
)
    requires
        before.wf(),
        after.wf(),
        0 <= at < before.clients@.len(),
        after.clients@.len() == before.clients@.len(),
        forall|i: int|
            0 <= i < before.clients@.len() && i != at ==> (#[trigger] after.clients@[i])
                == before.clients@[i],
        crate::path::path_eq(after.clients@[at].0@, before.clients@[at].0@),
        after.clients@[at].1 == client,
    ensures
        after.client_of(q) == (if crate::path::path_eq(q, before.clients@[at].0@) {
            Some(client)
        } else {
            before.client_of(q)
        }),
{
    if crate::path::path_eq(q, before.clients@[at].0@) {
        assert(after.at(at, q));
        lemma_client_at(after, at, q);
    } else if before.has(q) {
        let i = choose|i: int| #[trigger] before.at(i, q);
        assert(i != at);
        assert(after.clients@[i] == before.clients@[i]);
        assert(after.at(i, q));
        lemma_client_at(after, i, q);
        lemma_client_at(before, i, q);
    } else if after.has(q) {
        let i = choose|i: int| #[trigger] after.at(i, q);
        assert(i != at);
        assert(before.at(i, q));
    }
}

proof fn lemma_client_of_push<C>(before: ConnectionPool<C>, after: ConnectionPool<C>, q: Seq<char>)
    requires
        before.wf(),
        after.wf(),
        after.clients@.len() == before.clients@.len() + 1,
        after.clients@.drop_last() == before.clients@,
    ensures
        after.client_of(q) == (if crate::path::path_eq(q, after.clients@.last().0@) {
            Some(after.clients@.last().1)
        } else {
            before.client_of(q)
        }),
{
    let n = before.clients@.len() as int;
    if crate::path::path_eq(q, after.clients@.last().0@) {
        assert(after.at(n, q));
        lemma_client_at(after, n, q);
    } else if before.has(q) {
        let i = choose|i: int| #[trigger] before.at(i, q);
        assert(after.clients@.drop_last()[i] == after.clients@[i]);
        assert(after.at(i, q));
        lemma_client_at(after, i, q);
        lemma_client_at(before, i, q);
    } else if after.has(q) {
        let i = choose|i: int| #[trigger] after.at(i, q);
        assert(after.clients@.drop_last()[i] == after.clients@[i]);
        assert(before.at(i, q));
    }
}

proof fn lemma_client_of_remove<C>(
    before: ConnectionPool<C>,
    after: ConnectionPool<C>,
    at: int,
    q: Seq<char>,
)
    requires
        before.wf(),
        after.wf(),
        0 <= at < before.clients@.len(),
        after.clients@ == before.clients@.remove(at),
    ensures
        after.client_of(q) == (if crate::path::path_eq(q, before.clients@[at].0@) {
            None
        } else {
            before.client_of(q)
        }),
{
    if after.has(q) {
        let i = choose|i: int| #[trigger] after.at(i, q);
        let k = if i < at {
            i
        } else {
            i + 1
        };
        assert(after.clients@[i] == before.clients@[k]);
        assert(before.at(k, q));
        lemma_client_at(after, i, q);
        lemma_client_at(before, k, q);
        if k < at {
            assert(!crate::path::path_eq(before.clients@[k].0@, before.clients@[at].0@));
        } else {
            assert(!crate::path::path_eq(before.clients@[at].0@, before.clients@[k].0@));
        }
    } else if before.has(q) {
        let k = choose|k: int| #[trigger] before.at(k, q);
        if k != at {
            let i = if k < at {
                k
            } else {
                k - 1
            };
            assert(after.clients@[i] == before.clients@[k]);
            assert(after.at(i, q));
        }
    }
}

/// The text of an error that stands for a lost connection.
pub open spec fn is_lost_text(text: Seq<char>) -> bool {
    let lower = crate::text::lower_text(text);
    ||| crate::text::contains_text(lower, "ipc"@)
    ||| crate::text::contains_text(lower, "broken pipe"@)
    ||| crate::text::contains_text(lower, "connection"@)
    ||| crate::text::contains_text(lower, "unavailable"@)
    ||| crate::text::contains_text(lower, "recovery"@)
}

/// A response that stands for a lost connection.
pub open spec fn is_lost(resp: SearchResponse) -> bool {
    resp matches SearchResponse::Error(m) && is_lost_text(m@)
}

/// Whether a response stands for a lost connection: an error whose text says so.
pub fn is_connection_error(resp: &SearchResponse) -> (r: bool)
    ensures
        r == is_lost(*resp),
{
    match resp {
        SearchResponse::Error(msg) => {
            let m = msg.as_str();
            lower_contains(m, "ipc") || lower_contains(m, "broken pipe") || lower_contains(
                m,
                "connection",
            ) || lower_contains(m, "unavailable") || lower_contains(m, "recovery")
        },
        _ => false,
    }
}

/// What happened to a search so far.
pub enum RetryEvent {
    /// A connection was looked for.
    Connected(Result<(), String>),
    /// The connection answered.
    Answered(SearchResponse),
}

/// What a search does next.
pub enum RetryAction {
    /// Send the request over the connection.
    Call,
    /// Forget the connection and look for another.
    Reconnect,
    /// Give this to the caller.
    Return(SearchResponse),
}

/// A search goes over a kept connection. Where the answer stands for a lost
/// connection it is forgotten and the search goes over a new one, once.
pub fn search_with_retry(event: RetryEvent, retried: bool) -> (r: RetryAction)
    ensures
        match event {
            RetryEvent::Connected(Ok(())) => r is Call,
            RetryEvent::Connected(Err(e)) => r matches RetryAction::Return(resp)
                && crate::wire::is_failure(
                resp,
                (if retried {
                    "fff-engine reconnect failed: "@
                } else {
                    "fff-engine connect failed: "@
                }) + e@,
            ),
            RetryEvent::Answered(resp) => if !retried && is_lost(resp) {
                r is Reconnect
            } else {
                r == RetryAction::Return(resp)
            },
        },
{
    match event {
        RetryEvent::Connected(Ok(())) => RetryAction::Call,
        RetryEvent::Connected(Err(e)) => {
            let start = if retried {
                "fff-engine reconnect failed: "
            } else {
                "fff-engine connect failed: "
            };
            RetryAction::Return(
                SearchResponse::Error(String::from_str(start).concat(e.as_str())),
            )
        },
        RetryEvent::Answered(resp) => if !retried && is_connection_error(&resp) {
            RetryAction::Reconnect
        } else {
            RetryAction::Return(resp)
        },
    }
}

/// A root has the connection that stands in the pool under a spelling of its
/// path, and none where no spelling of it is there.
pub proof fn law_which_connection_a_root_has<C>(pool: ConnectionPool<C>, key: Seq<char>, i: int)
    requires
        pool.wf(),
    ensures
        0 <= i < pool.clients@.len() && crate::path::path_eq(pool.clients@[i].0@, key)
            ==> pool.client_of(key) == Some(pool.clients@[i].1) && pool.has(key),
        (forall|j: int|
            0 <= j < pool.clients@.len() ==> !crate::path::path_eq(
                (#[trigger] pool.clients@[j]).0@,
                key,
            )) ==> pool.client_of(key) is None && !pool.has(key),
{
    if 0 <= i < pool.clients@.len() && crate::path::path_eq(pool.clients@[i].0@, key) {
        assert(pool.at(i, key));
        lemma_client_at(pool, i, key);
    }
    if forall|j: int|
        0 <= j < pool.clients@.len() ==> !crate::path::path_eq(
            (#[trigger] pool.clients@[j]).0@,
            key,
        ) {
        assert forall|j: int| !#[trigger] pool.at(j, key) by {}
    }
}

/// An error stands for a lost connection exactly where its text, capitals aside,
/// holds one of five words; no other answer does.
pub proof fn law_what_a_lost_connection_says(resp: SearchResponse)
    ensures
        resp !is Error ==> !is_lost(resp),
        resp matches SearchResponse::Error(m) ==> (is_lost(resp) <==> {
            let t = crate::text::lower_text(m@);
            ||| exists|k: int|
                0 <= k && k + 3 <= t.len() && #[trigger] t.subrange(k, k + 3) == "ipc"@
            ||| exists|k: int|
                0 <= k && k + 11 <= t.len() && #[trigger] t.subrange(k, k + 11) == "broken pipe"@
            ||| exists|k: int|
                0 <= k && k + 10 <= t.len() && #[trigger] t.subrange(k, k + 10) == "connection"@
            ||| exists|k: int|
                0 <= k && k + 11 <= t.len() && #[trigger] t.subrange(k, k + 11) == "unavailable"@
            ||| exists|k: int|
                0 <= k && k + 8 <= t.len() && #[trigger] t.subrange(k, k + 8) == "recovery"@
        }),
{
    reveal_strlit("ipc");
    reveal_strlit("broken pipe");
    reveal_strlit("connection");
    reveal_strlit("unavailable");
    reveal_strlit("recovery");
    if let SearchResponse::Error(m) = resp {
        let t = crate::text::lower_text(m@);
        lemma_occurs(t, "ipc"@);
        lemma_occurs(t, "broken pipe"@);
        lemma_occurs(t, "connection"@);
        lemma_occurs(t, "unavailable"@);
        lemma_occurs(t, "recovery"@);
        assert("ipc"@.len() == 3 && "broken pipe"@.len() == 11 && "connection"@.len() == 10);
        assert("unavailable"@.len() == 11 && "recovery"@.len() == 8);
    }
}

proof fn lemma_occurs(t: Seq<char>, word: Seq<char>)
    ensures
        crate::text::contains_text(t, word) <==> exists|k: int|
            0 <= k && k + word.len() <= t.len() && #[trigger] t.subrange(k, k + word.len()) == word,
{
    if crate::text::contains_text(t, word) {
        let k = choose|k: int| #[trigger] crate::text::occurs_at(t, word, k);
        assert(t.subrange(k, k + word.len()) == word);
    }
    if exists|k: int|
        0 <= k && k + word.len() <= t.len() && #[trigger] t.subrange(k, k + word.len()) == word {
        let k = choose|k: int|
            0 <= k && k + word.len() <= t.len() && #[trigger] t.subrange(k, k + word.len()) == word;
        assert(crate::text::occurs_at(t, word, k));
    }
}

} // verus!

//! The registry of live, authenticated peer sessions and how a host id is
//! resolved against it: first by stable id, then by nickname.
use vstd::prelude::*;

use crate::ipc::{opt_text, HostId, ServerError};

verus! {

/// A live connection to an authenticated peer.
#[derive(Debug)]
pub struct Session {
    id: String,
    nickname: Option<String>,
}

pub struct SessionView {
    pub id: Seq<char>,
    pub nickname: Option<Seq<char>>,
}

impl View for Session {
    type V = SessionView;

    closed spec fn view(&self) -> SessionView {
        SessionView { id: self.id@, nickname: opt_text(self.nickname) }
    }
}

pub fn copy_opt_text(o: &Option<String>) -> (r: Option<String>)
    ensures
        opt_text(r) == opt_text(*o),
{
    match o {
        Some(s) => Some(s.clone()),
        None => None,
    }
}

impl Session {
    pub fn new(id: String, nickname: Option<String>) -> (r: Session)
        ensures
            r@ == (SessionView { id: id@, nickname: opt_text(nickname) }),
    {
        Session { id, nickname }
    }

    /// The stable id the peer was given when it authenticated.
    pub fn id(&self) -> (r: &String)
        ensures
            r@ == self@.id,
    {
        &self.id
    }

    pub fn nickname(&self) -> (r: &Option<String>)
        ensures
            opt_text(*r) == self@.nickname,
    {
        &self.nickname
    }
}

pub open spec fn session_views(v: Seq<Session>) -> Seq<SessionView> {
    v.map_values(|s: Session| s@)
}

pub open spec fn id_taken(s: Seq<SessionView>, id: Seq<char>) -> bool {
    exists|i: int| 0 <= i < s.len() && (#[trigger] s[i]).id == id
}

pub open spec fn nick_taken(s: Seq<SessionView>, n: Seq<char>) -> bool {
    exists|i: int| 0 <= i < s.len() && (#[trigger] s[i]).nickname == Some(n)
}

/// No two sessions share a stable id or a nickname.
pub open spec fn sessions_wf(s: Seq<SessionView>) -> bool {
    forall|i: int, j: int|
        0 <= i < s.len() && 0 <= j < s.len() && i != j ==> {
            &&& (#[trigger] s[i]).id != (#[trigger] s[j]).id
            &&& (s[i].nickname is Some ==> s[i].nickname != s[j].nickname)
        }
}

/// Whether resolving `key` yields session `i`: a session whose stable id is
/// `key`, or, where there is none, the session nicknamed `key`.
pub open spec fn resolves(s: Seq<SessionView>, key: Seq<char>, i: int) -> bool {
    &&& 0 <= i < s.len()
    &&& (s[i].id == key || (!id_taken(s, key) && s[i].nickname == Some(key)))
}

pub open spec fn resolvable(s: Seq<SessionView>, key: Seq<char>) -> bool {
    id_taken(s, key) || nick_taken(s, key)
}

/// Whether `v` can join `s` without sharing a stable id or a nickname.
pub open spec fn can_insert(s: Seq<SessionView>, v: SessionView) -> bool {
    &&& !id_taken(s, v.id)
    &&& match v.nickname {
        Some(n) => !nick_taken(s, n),
        None => true,
    }
}

proof fn lemma_remove_keeps_wf(s: Seq<SessionView>, k: int)
    requires
        sessions_wf(s),
        0 <= k < s.len(),
    ensures
        sessions_wf(s.remove(k)),
{
    let r = s.remove(k);
    assert forall|i: int, j: int| 0 <= i < r.len() && 0 <= j < r.len() && i != j implies {
        &&& (#[trigger] r[i]).id != (#[trigger] r[j]).id
        &&& (r[i].nickname is Some ==> r[i].nickname != r[j].nickname)
    } by {
        let oi = if i < k { i } else { i + 1 };
        let oj = if j < k { j } else { j + 1 };
        assert(r[i] == s[oi]);
        assert(r[j] == s[oj]);
    }
}

/// The peers this daemon holds a live session with.
pub struct SessionRegistry {
    sessions: Vec<Session>,
}

impl View for SessionRegistry {
    type V = Seq<SessionView>;

    closed spec fn view(&self) -> Seq<SessionView> {
        session_views(self.sessions@)
    }
}

impl SessionRegistry {
    pub open spec fn wf(&self) -> bool {
        sessions_wf(self@)
    }

    pub fn new() -> (r: SessionRegistry)
        ensures
            r@ == Seq::<SessionView>::empty(),
            r.wf(),
    {
        let r = SessionRegistry { sessions: Vec::new() };
        assert(r@ =~= Seq::<SessionView>::empty());
        r
    }

    pub fn len(&self) -> (r: usize)
        ensures
            r == self@.len(),
    {
        self.sessions.len()
    }

    pub fn get(&self, i: usize) -> (r: &Session)
        requires
            i < self@.len(),
        ensures
            r@ == self@[i as int],
    {
        &self.sessions[i]
    }

    /// The session whose stable id is `key`, if any.
    fn find_id(&self, key: &String) -> (r: Option<usize>)
        ensures
            match r {
                Some(i) => i < self@.len() && self@[i as int].id == key@,
                None => !id_taken(self@, key@),
            },
    {
        let mut i: usize = 0;
        while i < self.sessions.len()
            invariant
                i <= self@.len(),
                self@.len() == self.sessions@.len(),
                forall|j: int| 0 <= j < i ==> (#[trigger] self@[j]).id != key@,
            decreases self@.len() - i,
        {
            assert(self@[i as int] == self.sessions@[i as int]@);
            if self.sessions[i].id == *key {
                return Some(i);
            }
            i = i + 1;
        }
        None
    }

    /// The session nicknamed `key`, if any.
    fn find_nickname(&self, key: &String) -> (r: Option<usize>)
        ensures
            match r {
                Some(i) => i < self@.len() && self@[i as int].nickname == Some(key@),
                None => !nick_taken(self@, key@),
            },
    {
        let mut i: usize = 0;
        while i < self.sessions.len()
            invariant
                i <= self@.len(),
                self@.len() == self.sessions@.len(),
                forall|j: int| 0 <= j < i ==> (#[trigger] self@[j]).nickname != Some(key@),
            decreases self@.len() - i,
        {
            assert(self@[i as int] == self.sessions@[i as int]@);
            if let Some(n) = &self.sessions[i].nickname {
                if *n == *key {
                    return Some(i);
                }
            }
            i = i + 1;
        }
        None
    }

    /// The session `id` names: by stable id first, then by nickname.
    pub fn resolve(&self, id: &HostId) -> (r: Option<usize>)
        ensures
            match r {
                Some(i) => resolves(self@, id@, i as int),
                None => !resolvable(self@, id@),
            },
    {
        let key = id.text();
        match self.find_id(key) {
            Some(i) => Some(i),
            None => self.find_nickname(key),
        }
    }

    /// Adds a session; fails when its stable id or its nickname is taken.
    pub fn insert(&mut self, session: Session) -> (r: Result<(), ServerError>)
        requires
            old(self).wf(),
        ensures
            final(self).wf(),
            can_insert(old(self)@, session@) ==> r is Ok && final(self)@ == old(self)@.push(
                session@,
            ),
            !can_insert(old(self)@, session@) ==> r == Err::<(), ServerError>(
                ServerError::DuplicateId,
            ) && final(self)@ == old(self)@,
    {
        if self.find_id(&session.id).is_some() {
            return Err(ServerError::DuplicateId);
        }
        if let Some(n) = &session.nickname {
            if self.find_nickname(n).is_some() {
                return Err(ServerError::DuplicateId);
            }
        }
        let ghost s = self@;
        let ghost v = session@;
        self.sessions.push(session);
        proof {
            assert(self@ =~= s.push(v));
            assert forall|i: int, j: int|
                0 <= i < self@.len() && 0 <= j < self@.len() && i != j implies {
                &&& (#[trigger] self@[i]).id != (#[trigger] self@[j]).id
                &&& (self@[i].nickname is Some ==> self@[i].nickname != self@[j].nickname)
            } by {
                if i == s.len() {
                    assert(s[j] == self@[j]);
                } else if j == s.len() {
                    assert(s[i] == self@[i]);
                    if v.nickname is Some {
                        assert(s[i].nickname != v.nickname);
                    }
                }
            }
        }
        Ok(())
    }

    /// Removes the session `id` resolves to, and hands it back.
    pub fn remove(&mut self, id: &HostId) -> (r: Option<Session>)
        requires
            old(self).wf(),
        ensures
            final(self).wf(),
            match r {
                None => !resolvable(old(self)@, id@) && final(self)@ == old(self)@,
                Some(x) => exists|i: int|
                    resolves(old(self)@, id@, i) && x@ == old(self)@[i] && final(self)@ == old(self)@.remove(i),
            },
    {
        match self.resolve(id) {
            None => None,
            Some(i) => {
                let ghost s = self@;
                let x = self.sessions.remove(i);
                proof {
                    assert(self@ =~= s.remove(i as int));
                    lemma_remove_keeps_wf(s, i as int);
                }
                Some(x)
            },
        }
    }
}

/// Resolution is a partial function: in a registry where stable ids and
/// nicknames are unique, an id resolves to at most one session.
pub proof fn lemma_resolution_unique(s: Seq<SessionView>, key: Seq<char>, i: int, j: int)
    requires
        sessions_wf(s),
        resolves(s, key, i),
        resolves(s, key, j),
    ensures
        i == j,
{
    if i != j {
        if s[i].id == key {
            assert(id_taken(s, key));
            assert(s[j].id == key);
        } else if s[j].id == key {
            assert(id_taken(s, key));
        } else {
            assert(s[i].nickname == s[j].nickname);
        }
    }
}

/// A session that connects and then disconnects by its stable id leaves
/// the registry as it was, and no id resolves to it afterwards.
pub proof fn lemma_connect_then_disconnect(s: Seq<SessionView>, v: SessionView)
    requires
        sessions_wf(s),
        can_insert(s, v),
    ensures
        resolves(s.push(v), v.id, s.len() as int),
        forall|i: int| resolves(s.push(v), v.id, i) ==> i == s.len(),
        s.push(v).remove(s.len() as int) == s,
        forall|key: Seq<char>, i: int| resolves(s, key, i) ==> s[i].id != v.id,
{
    let s1 = s.push(v);
    assert(s1[s.len() as int] == v);
    assert forall|i: int| resolves(s1, v.id, i) implies i == s.len() by {
        if i < s.len() {
            assert(s1[i] == s[i]);
            if s1[i].id == v.id {
                assert(id_taken(s, v.id));
            } else {
                assert(id_taken(s1, v.id));
            }
        }
    }
    assert(s1.remove(s.len() as int) =~= s);
    assert forall|key: Seq<char>, i: int| resolves(s, key, i) implies s[i].id != v.id by {
        if s[i].id == v.id {
            assert(id_taken(s, v.id));
        }
    }
}

} // verus!

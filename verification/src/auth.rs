//! Session lifecycle: an in-memory registry of opaque tokens with lazy
//! expiry, modelled as a map from token to session record.

use vstd::prelude::*;

use crate::strutil::spec_starts_with;
use crate::strutil::spec_trim;
use crate::strutil::find_char;
use crate::strutil::lemma_find_char_props;
use crate::strutil::str_to_chars;
use crate::strutil::trim_range;
use crate::strutil::find_char_range;
use crate::strutil::chars_to_string;
use vstd::pervasive::VecAdditionalExecFns;
use vstd::string::StringExecFns;

verus! {

/// A live session: who logged in and when the record was last touched.
/// Times are unix seconds supplied by the caller.
pub struct Session {
    pub user_id: String,
    pub username: String,
    pub created_at: u64,
    pub last_accessed: u64,
}

/// The mathematical image of a `Session`.
pub struct SessionView {
    pub user_id: Seq<char>,
    pub username: Seq<char>,
    pub created_at: u64,
    pub last_accessed: u64,
}

impl View for Session {
    type V = SessionView;

    open spec fn view(&self) -> SessionView {
        SessionView {
            user_id: self.user_id@,
            username: self.username@,
            created_at: self.created_at,
            last_accessed: self.last_accessed,
        }
    }
}

impl Clone for Session {
    fn clone(&self) -> (r: Self)
        ensures
            r@ == self@,
    {
        Session {
            user_id: self.user_id.clone(),
            username: self.username.clone(),
            created_at: self.created_at,
            last_accessed: self.last_accessed,
        }
    }
}

struct SessionEntry {
    token: String,
    session: Session,
}

/// The registry of live sessions. Its view is a map from token to
/// session record; tokens are unique.
pub struct SessionStore {
    entries: Vec<SessionEntry>,
    timeout_seconds: u64,
}

impl View for SessionStore {
    type V = Map<Seq<char>, SessionView>;

    closed spec fn view(&self) -> Map<Seq<char>, SessionView> {
        entries_map(self.entries@)
    }
}

/// A session is expired at `now` when more than `timeout` seconds have
/// passed since it was last accessed. A `last_accessed` in the future
/// counts as an age of zero.
pub open spec fn spec_expired(s: SessionView, now: u64, timeout: u64) -> bool {
    now > s.last_accessed + timeout
}

spec fn entries_map(s: Seq<SessionEntry>) -> Map<Seq<char>, SessionView>
    decreases s.len(),
{
    if s.len() == 0 {
        Map::empty()
    } else {
        entries_map(s.drop_last()).insert(s.last().token@, s.last().session@)
    }
}

spec fn entries_unique(s: Seq<SessionEntry>) -> bool {
    forall|i: int, j: int| 0 <= i < j < s.len() ==> s[i].token@ != s[j].token@
}

proof fn lemma_entries_map_contains(s: Seq<SessionEntry>, t: Seq<char>)
    ensures
        entries_map(s).contains_key(t) <==> exists|i: int| 0 <= i < s.len() && s[i].token@ == t,
    decreases s.len(),
{
    if s.len() > 0 {
        lemma_entries_map_contains(s.drop_last(), t);
        if entries_map(s).contains_key(t) {
            if s.last().token@ == t {
                assert(s[s.len() - 1].token@ == t);
            } else {
                let i = choose|i: int| 0 <= i < s.drop_last().len() && s.drop_last()[i].token@ == t;
                assert(s[i].token@ == t);
            }
        }
        if exists|i: int| 0 <= i < s.len() && s[i].token@ == t {
            let i = choose|i: int| 0 <= i < s.len() && s[i].token@ == t;
            if i < s.len() - 1 {
                assert(s.drop_last()[i].token@ == t);
            }
        }
    }
}

proof fn lemma_entries_map_index(s: Seq<SessionEntry>, i: int)
    requires
        entries_unique(s),
        0 <= i < s.len(),
    ensures
        entries_map(s).contains_key(s[i].token@),
        entries_map(s)[s[i].token@] == s[i].session@,
    decreases s.len(),
{
    lemma_entries_map_contains(s, s[i].token@);
    if s.len() > 0 {
        if i == s.len() - 1 {
        } else {
            assert(s.last().token@ != s[i].token@);
            assert(entries_unique(s.drop_last()));
            assert(s.drop_last()[i] == s[i]);
            lemma_entries_map_index(s.drop_last(), i);
        }
    }
}

proof fn lemma_entries_map_remove(s: Seq<SessionEntry>, i: int)
    requires
        entries_unique(s),
        0 <= i < s.len(),
    ensures
        entries_map(s.remove(i)) == entries_map(s).remove(s[i].token@),
    decreases s.len(),
{
    let t = s[i].token@;
    if i == s.len() - 1 {
        lemma_entries_map_contains(s.drop_last(), t);
        assert(forall|j: int| 0 <= j < s.len() - 1 ==> s[j].token@ != t);
        assert(!entries_map(s.drop_last()).contains_key(t));
        assert(s.remove(i) =~= s.drop_last());
        assert(entries_map(s.remove(i)) =~= entries_map(s).remove(t));
    } else {
        assert(entries_unique(s.drop_last()));
        assert(s.drop_last()[i] == s[i]);
        lemma_entries_map_remove(s.drop_last(), i);
        assert(s.remove(i).drop_last() =~= s.drop_last().remove(i));
        assert(s.remove(i).last() == s.last());
        assert(s.last().token@ != t);
        assert(entries_map(s.remove(i)) == entries_map(s.drop_last().remove(i)).insert(
            s.last().token@,
            s.last().session@,
        ));
        assert(entries_map(s.remove(i)) =~= entries_map(s).remove(t));
    }
}

proof fn lemma_entries_map_update(s: Seq<SessionEntry>, i: int, e: SessionEntry)
    requires
        entries_unique(s),
        0 <= i < s.len(),
        e.token@ == s[i].token@,
    ensures
        entries_map(s.update(i, e)) == entries_map(s).insert(e.token@, e.session@),
    decreases s.len(),
{
    let t = s[i].token@;
    if i == s.len() - 1 {
        assert(s.update(i, e).drop_last() =~= s.drop_last());
        assert(s.update(i, e).last() == e);
        assert(entries_map(s.update(i, e)) =~= entries_map(s).insert(t, e.session@));
    } else {
        assert(entries_unique(s.drop_last()));
        assert(s.drop_last()[i] == s[i]);
        lemma_entries_map_update(s.drop_last(), i, e);
        assert(s.update(i, e).drop_last() =~= s.drop_last().update(i, e));
        assert(s.update(i, e).last() == s.last());
        assert(s.last().token@ != t);
        assert(entries_map(s.update(i, e)) =~= entries_map(s).insert(t, e.session@));
    }
}

proof fn lemma_entries_map_push(s: Seq<SessionEntry>, e: SessionEntry)
    ensures
        entries_map(s.push(e)) == entries_map(s).insert(e.token@, e.session@),
{
    assert(s.push(e).drop_last() =~= s);
    assert(s.push(e).last() == e);
}

// ---------------------------------------------------------------------------
// Model functions shared by contracts and laws
// ---------------------------------------------------------------------------

/// The record a lookup returns: absent and expired tokens yield nothing,
/// a live token yields the record with `last_accessed` refreshed.
pub open spec fn spec_get_result(
    m: Map<Seq<char>, SessionView>,
    t: Seq<char>,
    now: u64,
    timeout: u64,
) -> Option<SessionView> {
    if !m.contains_key(t) {
        None
    } else if spec_expired(m[t], now, timeout) {
        None
    } else {
        Some(
            SessionView {
                user_id: m[t].user_id,
                username: m[t].username,
                created_at: m[t].created_at,
                last_accessed: now,
            },
        )
    }
}

/// The registry after a lookup: lazy expiry deletes an expired record,
/// a live record has its `last_accessed` refreshed.
pub open spec fn spec_get_map(
    m: Map<Seq<char>, SessionView>,
    t: Seq<char>,
    now: u64,
    timeout: u64,
) -> Map<Seq<char>, SessionView> {
    if !m.contains_key(t) {
        m
    } else if spec_expired(m[t], now, timeout) {
        m.remove(t)
    } else {
        m.insert(
            t,
            SessionView {
                user_id: m[t].user_id,
                username: m[t].username,
                created_at: m[t].created_at,
                last_accessed: now,
            },
        )
    }
}

/// The registry after a creation: the new token maps to a fresh record
/// for `username` with both times set to `now`; everything else is kept.
pub open spec fn spec_created(
    m0: Map<Seq<char>, SessionView>,
    m1: Map<Seq<char>, SessionView>,
    t: Seq<char>,
    username: Seq<char>,
    now: u64,
) -> bool {
    &&& m1.dom() == m0.dom().insert(t)
    &&& m1[t].username == username
    &&& m1[t].created_at == now
    &&& m1[t].last_accessed == now
    &&& forall|k: Seq<char>| k != t && m0.contains_key(k) ==> m1[k] == m0[k]
}

impl SessionStore {
    /// All tokens distinct, and a positive timeout.
    pub closed spec fn wf(&self) -> bool {
        entries_unique(self.entries@) && self.timeout_seconds >= 1
    }

    /// The configured inactivity timeout, in seconds.
    pub closed spec fn timeout_secs(&self) -> u64 {
        self.timeout_seconds
    }

    /// A store is born empty. A zero timeout is invalid configuration
    /// and is rejected here rather than silently expiring every session.
    pub fn new(timeout_seconds: u64) -> (r: Option<SessionStore>)
        ensures
            r is Some <==> timeout_seconds >= 1,
            r matches Some(store) ==> store.wf() && store@ == Map::<Seq<char>, SessionView>::empty()
                && store.timeout_secs() == timeout_seconds,
    {
        if timeout_seconds == 0 {
            None
        } else {
            Some(SessionStore { entries: Vec::new(), timeout_seconds })
        }
    }

    fn find_token(&self, session_id: &str) -> (r: Option<usize>)
        requires
            self.wf(),
        ensures
            match r {
                Some(i) => i < self.entries@.len() && self.entries@[i as int].token@
                    == session_id@ && self@.contains_key(session_id@),
                None => !self@.contains_key(session_id@),
            },
    {
        let n: usize = self.entries.len();
        let mut i: usize = 0;
        while i < n
            invariant
                self.wf(),
                n == self.entries@.len(),
                i <= n,
                forall|j: int| 0 <= j < i ==> self.entries@[j].token@ != session_id@,
            decreases n - i,
        {
            if crate::strutil::str_eq(self.entries[i].token.as_str(), session_id) {
                proof {
                    lemma_entries_map_index(self.entries@, i as int);
                }
                return Some(i);
            }
            i = i + 1;
        }
        proof {
            lemma_entries_map_contains(self.entries@, session_id@);
        }
        None
    }

    /// Mints a fresh random token, stores a new session for `username`
    /// with both timestamps set to `now`, and returns the token.
    pub fn create_session(&mut self, username: &str, now: u64) -> (sid: String)
        requires
            old(self).wf(),
        ensures
            final(self).wf(),
            final(self).timeout_secs() == old(self).timeout_secs(),
            spec_created(old(self)@, final(self)@, sid@, username@, now),
    {
        let sid = new_token();
        let user_id = new_token();
        let session = Session {
            user_id,
            username: username.to_owned(),
            created_at: now,
            last_accessed: now,
        };
        let entry = SessionEntry { token: sid.clone(), session };
        match self.find_token(sid.as_str()) {
            Some(i) => {
                proof {
                    lemma_entries_map_update(self.entries@, i as int, entry);
                }
                self.entries.set(i, entry);
                proof {
                    assert(self@.dom() =~= old(self)@.dom().insert(sid@));
                }
            },
            None => {
                proof {
                    lemma_entries_map_push(self.entries@, entry);
                }
                self.entries.push(entry);
                proof {
                    assert(entries_unique(self.entries@)) by {
                        lemma_entries_map_contains(old(self).entries@, sid@);
                        assert(forall|j: int|
                            0 <= j < old(self).entries@.len() ==> old(
                                self,
                            ).entries@[j].token@ != sid@);
                    }
                    assert(self@.dom() =~= old(self)@.dom().insert(sid@));
                }
            },
        }
        sid
    }

    /// Looks a token up at time `now`: nothing for an unknown token; an
    /// expired record is deleted (lazy expiry) and nothing is returned;
    /// a live record has `last_accessed` refreshed and a copy returned.
    pub fn get_session(&mut self, session_id: &str, now: u64) -> (r: Option<Session>)
        requires
            old(self).wf(),
        ensures
            final(self).wf(),
            final(self).timeout_secs() == old(self).timeout_secs(),
            final(self)@ == spec_get_map(old(self)@, session_id@, now, old(self).timeout_secs()),
            match r {
                Some(s) => spec_get_result(old(self)@, session_id@, now, old(self).timeout_secs())
                    == Some(s@),
                None => spec_get_result(old(self)@, session_id@, now, old(self).timeout_secs())
                    is None,
            },
    {
        match self.find_token(session_id) {
            None => None,
            Some(i) => {
                proof {
                    lemma_entries_map_index(self.entries@, i as int);
                }
                let last = self.entries[i].session.last_accessed;
                let age: u64 = if now >= last {
                    now - last
                } else {
                    0
                };
                if age > self.timeout_seconds {
                    proof {
                        lemma_entries_map_remove(self.entries@, i as int);
                    }
                    let _ = self.entries.remove(i);
                    proof {
                        assert(entries_unique(self.entries@)) by {
                            assert forall|a: int, b: int|
                                0 <= a < b < self.entries@.len() implies self.entries@[a].token@
                                != self.entries@[b].token@ by {
                                let a0: int = if a < i {
                                    a
                                } else {
                                    a + 1
                                };
                                let b0: int = if b < i {
                                    b
                                } else {
                                    b + 1
                                };
                                assert(old(self).entries@[a0] == self.entries@[a]);
                                assert(old(self).entries@[b0] == self.entries@[b]);
                            }
                        }
                    }
                    None
                } else {
                    let mut session = self.entries[i].session.clone();
                    session.last_accessed = now;
                    let token = self.entries[i].token.clone();
                    let entry = SessionEntry { token, session: session.clone() };
                    proof {
                        lemma_entries_map_update(self.entries@, i as int, entry);
                    }
                    self.entries.set(i, entry);
                    Some(session)
                }
            },
        }
    }

    /// Deletes the record for `session_id` if present; reports whether a
    /// deletion happened. Idempotent: a second call returns false.
    pub fn remove_session(&mut self, session_id: &str) -> (r: bool)
        requires
            old(self).wf(),
        ensures
            final(self).wf(),
            final(self).timeout_secs() == old(self).timeout_secs(),
            r == old(self)@.contains_key(session_id@),
            final(self)@ == old(self)@.remove(session_id@),
    {
        match self.find_token(session_id) {
            None => {
                proof {
                    assert(self@ =~= old(self)@.remove(session_id@));
                }
                false
            },
            Some(i) => {
                proof {
                    lemma_entries_map_remove(self.entries@, i as int);
                }
                let _ = self.entries.remove(i);
                proof {
                    assert(entries_unique(self.entries@)) by {
                        assert forall|a: int, b: int|
                            0 <= a < b < self.entries@.len() implies self.entries@[a].token@
                            != self.entries@[b].token@ by {
                            let a0: int = if a < i {
                                a
                            } else {
                                a + 1
                            };
                            let b0: int = if b < i {
                                b
                            } else {
                                b + 1
                            };
                            assert(old(self).entries@[a0] == self.entries@[a]);
                            assert(old(self).entries@[b0] == self.entries@[b]);
                        }
                    }
                }
                true
            },
        }
    }

    /// Deletes every record that is expired at `now`, independent of
    /// read traffic; live records are untouched.
    pub fn cleanup_expired_sessions(&mut self, now: u64)
        requires
            old(self).wf(),
        ensures
            final(self).wf(),
            final(self).timeout_secs() == old(self).timeout_secs(),
            forall|k: Seq<char>|
                final(self)@.contains_key(k) <==> (old(self)@.contains_key(k) && !spec_expired(
                    old(self)@[k],
                    now,
                    old(self).timeout_secs(),
                )),
            forall|k: Seq<char>| final(self)@.contains_key(k) ==> final(self)@[k] == old(self)@[k],
    {
        let timeout = self.timeout_seconds;
        let n: usize = self.entries.len();
        let mut kept: Vec<SessionEntry> = Vec::new();
        let mut j: usize = 0;
        proof {
            assert(self.entries@.take(0) =~= Seq::<SessionEntry>::empty());
        }
        while j < n
            invariant
                entries_unique(self.entries@),
                n == self.entries@.len(),
                j <= n,
                entries_unique(kept@),
                forall|k: Seq<char>|
                    entries_map(kept@).contains_key(k) <==> (entries_map(
                        self.entries@.take(j as int),
                    ).contains_key(k) && !spec_expired(
                        entries_map(self.entries@.take(j as int))[k],
                        now,
                        timeout,
                    )),
                forall|k: Seq<char>|
                    entries_map(kept@).contains_key(k) ==> entries_map(kept@)[k] == entries_map(
                        self.entries@.take(j as int),
                    )[k],
                forall|a: int, b: int|
                    0 <= a < kept@.len() && 0 <= b < n && kept@[a].token@
                        == self.entries@[b].token@ ==> b < j,
            decreases n - j,
        {
            let ghost pre_take = self.entries@.take(j as int);
            let ghost cur_take = self.entries@.take(j + 1);
            proof {
                assert(cur_take.drop_last() =~= pre_take);
                assert(cur_take.last() == self.entries@[j as int]);
                lemma_entries_map_contains(pre_take, self.entries@[j as int].token@);
                assert(forall|a: int|
                    0 <= a < j ==> #[trigger] pre_take[a].token@ != self.entries@[
                    j as int].token@);
                assert(!entries_map(pre_take).contains_key(self.entries@[j as int].token@));
            }
            let last = self.entries[j].session.last_accessed;
            let age: u64 = if now >= last {
                now - last
            } else {
                0
            };
            if age <= timeout {
                let e = SessionEntry {
                    token: self.entries[j].token.clone(),
                    session: self.entries[j].session.clone(),
                };
                proof {
                    lemma_entries_map_push(kept@, e);
                    lemma_entries_map_contains(kept@, e.token@);
                }
                kept.push(e);
            }
            j = j + 1;
        }
        proof {
            assert(self.entries@.take(n as int) =~= self.entries@);
        }
        self.entries = kept;
    }
}

// ---------------------------------------------------------------------------
// Laws of the session lifecycle
// ---------------------------------------------------------------------------

/// A session created for `username` at `now` is returned by any lookup
/// within the timeout, and the returned record carries that username.
pub proof fn lemma_create_then_get(
    m0: Map<Seq<char>, SessionView>,
    m1: Map<Seq<char>, SessionView>,
    t: Seq<char>,
    username: Seq<char>,
    now: u64,
    later: u64,
    timeout: u64,
)
    requires
        spec_created(m0, m1, t, username, now),
        later <= now + timeout,
    ensures
        spec_get_result(m1, t, later, timeout) matches Some(s) && s.username == username,
{
    assert(m1.dom().contains(t));
}

/// A lookup of an unknown token returns nothing and changes nothing;
/// a removal of an unknown token reports no deletion.
pub proof fn lemma_unknown_token(m: Map<Seq<char>, SessionView>, t: Seq<char>, now: u64, timeout: u64)
    requires
        !m.contains_key(t),
    ensures
        spec_get_result(m, t, now, timeout) is None,
        spec_get_map(m, t, now, timeout) == m,
{
}

/// A lookup of an expired token returns nothing and deletes the record,
/// so a subsequent removal of the same token reports no deletion.
pub proof fn lemma_expired_get_deletes(
    m: Map<Seq<char>, SessionView>,
    t: Seq<char>,
    now: u64,
    timeout: u64,
)
    requires
        m.contains_key(t),
        spec_expired(m[t], now, timeout),
    ensures
        spec_get_result(m, t, now, timeout) is None,
        spec_get_map(m, t, now, timeout) == m.remove(t),
        !spec_get_map(m, t, now, timeout).contains_key(t),
{
}

/// After a removal, a lookup of the same token always returns nothing.
pub proof fn lemma_remove_then_get(
    m: Map<Seq<char>, SessionView>,
    t: Seq<char>,
    now: u64,
    timeout: u64,
)
    ensures
        spec_get_result(m.remove(t), t, now, timeout) is None,
{
}

// ---------------------------------------------------------------------------
// Cookie parsing
// ---------------------------------------------------------------------------

/// The name of the session cookie, as the characters `session_id=`.
pub open spec fn sid_prefix() -> Seq<char> {
    seq!['s', 'e', 's', 's', 'i', 'o', 'n', '_', 'i', 'd', '=']
}

/// The value of the first `session_id=` cookie in a `;`-delimited cookie
/// header, each element trimmed of surrounding whitespace; nothing when
/// no element carries that name.
pub open spec fn spec_extract_session_id(s: Seq<char>) -> Option<Seq<char>>
    decreases s.len(),
    via spec_extract_session_id_decreases
{
    let k = find_char(s, ';');
    let part = spec_trim(s.take(k));
    if spec_starts_with(part, sid_prefix()) {
        Some(part.skip(sid_prefix().len() as int))
    } else if k < s.len() {
        spec_extract_session_id(s.skip(k + 1))
    } else {
        None
    }
}

#[via_fn]
proof fn spec_extract_session_id_decreases(s: Seq<char>) {
    lemma_find_char_props(s, ';');
}

fn has_sid_prefix(v: &Vec<char>, from: usize, to: usize) -> (r: bool)
    requires
        from <= to <= v@.len(),
    ensures
        r == spec_starts_with(v@.subrange(from as int, to as int), sid_prefix()),
{
    if to - from < 11 {
        return false;
    }
    let r = v[from] == 's' && v[from + 1] == 'e' && v[from + 2] == 's' && v[from + 3] == 's'
        && v[from + 4] == 'i' && v[from + 5] == 'o' && v[from + 6] == 'n' && v[from + 7] == '_'
        && v[from + 8] == 'i' && v[from + 9] == 'd' && v[from + 10] == '=';
    proof {
        let sub = v@.subrange(from as int, to as int);
        if r {
            assert(sub.subrange(0, 11) =~= sid_prefix());
        } else {
            if spec_starts_with(sub, sid_prefix()) {
                assert(forall|j: int|
                    0 <= j < 11 ==> #[trigger] sub.subrange(0, 11)[j] == v@[from + j]);
                assert(false);
            }
        }
    }
    r
}

/// Extracts the session token from a raw cookie header: cookies are split
/// on `;`, trimmed, and matched against the exact name `session_id`;
/// the first match wins.
pub fn extract_session_id(cookie_str: &str) -> (r: Option<String>)
    ensures
        match (r, spec_extract_session_id(cookie_str@)) {
            (Some(x), Some(y)) => x@ == y,
            (None, None) => true,
            _ => false,
        },
{
    let v = str_to_chars(cookie_str);
    let n: usize = v.len();
    let mut p: usize = 0;
    proof {
        assert(cookie_str@.skip(0) =~= cookie_str@);
    }
    loop
        invariant
            v@ == cookie_str@,
            n == v@.len(),
            p <= n,
            spec_extract_session_id(cookie_str@) == spec_extract_session_id(
                cookie_str@.skip(p as int),
            ),
        decreases n - p,
    {
        let ghost suffix = cookie_str@.skip(p as int);
        let q = find_char_range(&v, p, n, ';');
        proof {
            assert(v@.subrange(p as int, n as int) =~= suffix);
            assert(suffix.take(q - p) =~= v@.subrange(p as int, q as int));
        }
        let (a, b) = trim_range(&v, p, q);
        proof {
            assert(spec_trim(suffix.take(q - p)) == v@.subrange(a as int, b as int));
        }
        if has_sid_prefix(&v, a, b) {
            let s = crate::strutil::chars_range_to_string(&v, a + 11, b);
            proof {
                assert(v@.subrange(a + 11, b as int) =~= v@.subrange(a as int, b as int).skip(11));
            }
            return Some(s);
        }
        if q == n {
            proof {
                lemma_find_char_props(suffix, ';');
            }
            return None;
        }
        proof {
            lemma_find_char_props(suffix, ';');
            assert(q - p < suffix.len());
            assert(suffix.skip(q - p + 1) =~= cookie_str@.skip(q + 1));
        }
        p = q + 1;
    }
}

// ---------------------------------------------------------------------------
// The access gate
// ---------------------------------------------------------------------------

/// The per-request decision: let the request through (with the session
/// that authorized it, if any), reject it as unauthorized, or send the
/// client to the login page.
pub enum GateDecision {
    Allow(Option<Session>),
    Unauthorized,
    RedirectToLogin,
}

/// Paths that bypass authentication: health and readiness probes, static
/// assets, and the login and logout endpoints themselves.
pub open spec fn spec_exempt_path(p: Seq<char>) -> bool {
    ||| spec_starts_with(p, "/health"@)
    ||| spec_starts_with(p, "/ready"@)
    ||| spec_starts_with(p, "/static/"@)
    ||| p == "/login"@
    ||| p == "/logout"@
}

/// How an unauthenticated request is turned away: API clients get a
/// terminal 401, browsers are redirected to the login page.
pub open spec fn spec_deny(p: Seq<char>) -> GateDecision {
    if spec_starts_with(p, "/api/"@) {
        GateDecision::Unauthorized
    } else {
        GateDecision::RedirectToLogin
    }
}

/// The token a request carries, if any: no cookie header means no token.
pub open spec fn spec_cookie_token(h: Option<Seq<char>>) -> Option<Seq<char>> {
    match h {
        None => None,
        Some(s) => spec_extract_session_id(s),
    }
}

pub open spec fn opt_str_view(o: Option<&str>) -> Option<Seq<char>> {
    match o {
        None => None,
        Some(s) => Some(s@),
    }
}

fn exempt_path(path: &str) -> (r: bool)
    ensures
        r == spec_exempt_path(path@),
{
    crate::strutil::starts_with(path, "/health") || crate::strutil::starts_with(path, "/ready")
        || crate::strutil::starts_with(path, "/static/") || crate::strutil::str_eq(path, "/login")
        || crate::strutil::str_eq(path, "/logout")
}

fn deny(path: &str) -> (d: GateDecision)
    ensures
        d == spec_deny(path@),
{
    if crate::strutil::starts_with(path, "/api/") {
        GateDecision::Unauthorized
    } else {
        GateDecision::RedirectToLogin
    }
}

/// Decides one inbound request: exempt paths and disabled authentication
/// pass through; otherwise the cookie token is looked up in the store
/// (refreshing or lazily expiring it), and a request without a live
/// session is turned away according to its path class.
pub fn gate_request(
    store: &mut SessionStore,
    auth_enabled: bool,
    path: &str,
    cookie_header: Option<&str>,
    now: u64,
) -> (d: GateDecision)
    requires
        old(store).wf(),
    ensures
        final(store).wf(),
        final(store).timeout_secs() == old(store).timeout_secs(),
        (spec_exempt_path(path@) || !auth_enabled) ==> final(store)@ == old(store)@ && (
        d matches GateDecision::Allow(o) && o is None),
        (!spec_exempt_path(path@) && auth_enabled) ==> match spec_cookie_token(
            opt_str_view(cookie_header),
        ) {
            None => final(store)@ == old(store)@ && d == spec_deny(path@),
            Some(t) => {
                &&& final(store)@ == spec_get_map(old(store)@, t, now, old(store).timeout_secs())
                &&& match spec_get_result(old(store)@, t, now, old(store).timeout_secs()) {
                    Some(sv) => d matches GateDecision::Allow(o) && o matches Some(s) && s@ == sv,
                    None => d == spec_deny(path@),
                }
            },
        },
{
    if exempt_path(path) {
        return GateDecision::Allow(None);
    }
    if !auth_enabled {
        return GateDecision::Allow(None);
    }
    let token: Option<String> = match cookie_header {
        Some(h) => extract_session_id(h),
        None => None,
    };
    match token {
        None => deny(path),
        Some(t) => {
            match store.get_session(t.as_str(), now) {
                Some(session) => GateDecision::Allow(Some(session)),
                None => deny(path),
            }
        },
    }
}

/// A path under the API prefix is never exempt, and an unauthenticated
/// request to it is rejected with a terminal 401 rather than redirected.
pub proof fn lemma_api_never_exempt(p: Seq<char>)
    requires
        spec_starts_with(p, "/api/"@),
    ensures
        !spec_exempt_path(p),
        spec_deny(p) == GateDecision::Unauthorized,
{
    reveal_strlit("/api/");
    reveal_strlit("/health");
    reveal_strlit("/ready");
    reveal_strlit("/static/");
    reveal_strlit("/login");
    reveal_strlit("/logout");
    assert(p.subrange(0, 5)[1] == 'a');
    assert(p[1] == 'a');
    if spec_starts_with(p, "/health"@) {
        assert(p.subrange(0, 7)[1] == 'h');
        assert(false);
    }
    if spec_starts_with(p, "/ready"@) {
        assert(p.subrange(0, 6)[1] == 'r');
        assert(false);
    }
    if spec_starts_with(p, "/static/"@) {
        assert(p.subrange(0, 8)[1] == 's');
        assert(false);
    }
    if p == "/login"@ {
        assert(false);
    }
    if p == "/logout"@ {
        assert(false);
    }
}

// ---------------------------------------------------------------------------
// Login and logout
// ---------------------------------------------------------------------------

/// A submitted login form.
pub struct LoginForm {
    pub username: String,
    pub password: String,
}

/// The outcome of a login attempt. A wrong password and an unknown
/// username produce the same outcome, so nothing externally visible
/// distinguishes them.
pub enum LoginOutcome {
    Disabled,
    Success(String),
    InvalidCredentials,
}

/// Handles a login form submission: nothing happens while
/// authentication is disabled; a correct username and password mint a
/// session and hand back its token; anything else is one
/// indistinguishable failure.
pub fn login_attempt(
    store: &mut SessionStore,
    config: &crate::config::Config,
    username: &str,
    password: &str,
    now: u64,
) -> (r: LoginOutcome)
    requires
        old(store).wf(),
    ensures
        final(store).wf(),
        final(store).timeout_secs() == old(store).timeout_secs(),
        !config.auth_enabled ==> r is Disabled && final(store)@ == old(store)@,
        (config.auth_enabled && !(username@ == config.auth_username@
            && crate::config::spec_password_ok(config, password@))) ==> r is InvalidCredentials
            && final(store)@ == old(store)@,
        (config.auth_enabled && username@ == config.auth_username@
            && crate::config::spec_password_ok(config, password@)) ==> (
        r matches LoginOutcome::Success(sid) && spec_created(
            old(store)@,
            final(store)@,
            sid@,
            username@,
            now,
        )),
{
    if !config.auth_enabled {
        return LoginOutcome::Disabled;
    }
    let name_ok = crate::strutil::str_eq(username, config.auth_username.as_str());
    if name_ok && config.verify_password(password) {
        let sid = store.create_session(username, now);
        LoginOutcome::Success(sid)
    } else {
        LoginOutcome::InvalidCredentials
    }
}

/// The `Set-Cookie` value that hands a fresh session to the browser.
pub fn session_cookie(session_id: &str, max_age_seconds: u64) -> (r: String)
    ensures
        r@ == "session_id="@ + session_id@ + "; HttpOnly; SameSite=Strict; Path=/; Max-Age="@
            + crate::strutil::dec_rep(max_age_seconds as nat),
{
    let mut out = String::new();
    out.append("session_id=");
    out.append(session_id);
    out.append("; HttpOnly; SameSite=Strict; Path=/; Max-Age=");
    let digits = crate::strutil::u64_dec_chars(max_age_seconds);
    let digit_str = chars_to_string(&digits);
    out.append(digit_str.as_str());
    out
}

/// Handles a logout: the session named by the request's cookie, if any,
/// is removed; reports whether a session was removed.
pub fn logout_request(store: &mut SessionStore, cookie_header: Option<&str>) -> (r: bool)
    requires
        old(store).wf(),
    ensures
        final(store).wf(),
        final(store).timeout_secs() == old(store).timeout_secs(),
        match spec_cookie_token(opt_str_view(cookie_header)) {
            None => r == false && final(store)@ == old(store)@,
            Some(t) => r == old(store)@.contains_key(t) && final(store)@ == old(store)@.remove(t),
        },
{
    let token: Option<String> = match cookie_header {
        Some(h) => extract_session_id(h),
        None => None,
    };
    match token {
        Some(t) => store.remove_session(t.as_str()),
        None => false,
    }
}

// ---------------------------------------------------------------------------
// Token generation
// ---------------------------------------------------------------------------

/// Relies on `uuid::Uuid::new_v4` and its `Display` impl: a fresh random
/// version-4 UUID rendered in the hyphenated form, which is 36 characters.
/// Nothing is assumed about which token comes out.
#[verifier::external_body]
fn new_token() -> (r: String)
    ensures
        r@.len() == 36,
{
    uuid::Uuid::new_v4().to_string()
}

} // verus!
